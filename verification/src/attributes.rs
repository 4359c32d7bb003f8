//! Attributes interned in a context: the erased [`AttributeRef`] handle,
//! the interned representation [`AttrData`], the `(name, attribute)` pair
//! [`NamedAttribute`], and the concrete variants reached by downcasts.

use vstd::prelude::*;
use crate::context::Context;
use crate::context::find_name;
use crate::context::lemma_grew_idents_implies_interned;
use crate::context::lemma_grew_interned_refl;
use crate::context::lemma_grew_interned_trans;
use crate::context::views;
use crate::identifier::IdentifierRef;
use crate::dialect::DialectRef;
use crate::text::append_dec_i64;
use crate::text::dec_int;
use crate::types::expect_lit;
use crate::types::is_digit_byte;
use crate::types::parse_digits;
use crate::types::spec_digits;
use crate::types::spec_expect_lit;
use crate::types::parse_type_at;
use crate::types::spec_type_text;
use crate::types::Signedness;
use crate::types::TypeData;
use crate::types::TypeRef;
use crate::types::B_DIGIT_0;
use crate::types::B_LOWER_A;
use crate::types::B_LOWER_N;
use crate::types::B_LOWER_D;
use crate::types::B_LOWER_F;
use crate::types::B_LOWER_T;
use crate::types::B_LOWER_U;
use vstd::string::StrSliceExecFns;

verus! {

broadcast use vstd::string::is_ascii_spec_bytes;

/// ASCII codes used by the attribute grammar.
pub const B_QUOTE: u8 = 34;

pub const B_MINUS: u8 = 45;

pub const B_RBRACKET: u8 = 93;

/// The printed form of one boolean.
pub open spec fn bool_text(b: bool) -> Seq<char> {
    if b {
        "true"@
    } else {
        "false"@
    }
}

/// The printed form of a boolean list, comma separated.
pub open spec fn spec_bool_elems_text(v: Seq<bool>) -> Seq<char>
    decreases v.len(),
{
    if v.len() == 0 {
        Seq::empty()
    } else if v.len() == 1 {
        bool_text(v[0])
    } else {
        spec_bool_elems_text(v.drop_last()) + ", "@ + bool_text(v.last())
    }
}

/// The printed form of a 32-bit integer list, comma separated.
pub open spec fn spec_i32_elems_text(v: Seq<i32>) -> Seq<char>
    decreases v.len(),
{
    if v.len() == 0 {
        Seq::empty()
    } else if v.len() == 1 {
        dec_int(v[0] as int)
    } else {
        spec_i32_elems_text(v.drop_last()) + ", "@ + dec_int(v.last() as int)
    }
}

/// The printed form of a quoted string list, comma separated.
pub open spec fn spec_str_elems_text(idents: Seq<Seq<char>>, v: Seq<usize>) -> Seq<char>
    decreases v.len(),
{
    if v.len() == 0 {
        Seq::empty()
    } else if v.len() == 1 {
        "\""@ + (if v[0] < idents.len() {
            idents[v[0] as int]
        } else {
            Seq::empty()
        }) + "\""@
    } else {
        spec_str_elems_text(idents, v.drop_last()) + ", "@ + "\""@ + (if v.last() < idents.len() {
            idents[v.last() as int]
        } else {
            Seq::empty()
        }) + "\""@
    }
}

/// Whether `ty` is the boolean type: a signless integer of width one.
pub open spec fn is_bool_type(ctx: &Context, ty: TypeRef) -> bool {
    ty.id < ctx.types@.len() && ctx.types@[ty.id as int] == (TypeData::Integer {
        signedness: Signedness::Signless,
        width: 1,
    })
}

/// The canonical printed form of the attribute at table index `i`.
pub open spec fn spec_attr_text(ctx: &Context, i: int) -> Seq<char> {
    if 0 <= i < ctx.attrs@.len() {
        match ctx.attrs@[i] {
            AttrData::IntegerAttr { value, ty } => if is_bool_type(ctx, ty) {
                bool_text(value != 0)
            } else {
                dec_int(value as int) + " : "@ + spec_type_text(
                    ctx.types@,
                    views(ctx.idents@),
                    ty.id as int,
                )
            },
            AttrData::FloatAttr { text, ty } => (if text < views(ctx.idents@).len() {
                views(ctx.idents@)[text as int]
            } else {
                Seq::empty()
            }) + " : "@ + spec_type_text(ctx.types@, views(ctx.idents@), ty.id as int),
            AttrData::StringAttr { value } => "\""@ + (if value < views(ctx.idents@).len() {
                views(ctx.idents@)[value as int]
            } else {
                Seq::empty()
            }) + "\""@,
            AttrData::UnitAttr => "unit"@,
            AttrData::TypeAttr { ty } => spec_type_text(
                ctx.types@,
                views(ctx.idents@),
                ty.id as int,
            ),
            AttrData::DenseBool { elems } => {
                let v = views(ctx.bool_lists@)[elems as int];
                if elems < ctx.bool_lists@.len() && v.len() > 0 {
                    "array<i1: "@ + spec_bool_elems_text(v) + ">"@
                } else {
                    "array<i1>"@
                }
            },
            AttrData::DenseI32 { elems } => {
                let v = views(ctx.i32_lists@)[elems as int];
                if elems < ctx.i32_lists@.len() && v.len() > 0 {
                    "array<i32: "@ + spec_i32_elems_text(v) + ">"@
                } else {
                    "array<i32>"@
                }
            },
            AttrData::DenseStrings { elems, ty } => "dense<["@ + (if elems
                < ctx.str_lists@.len() {
                spec_str_elems_text(views(ctx.idents@), views(ctx.str_lists@)[elems as int])
            } else {
                Seq::empty()
            }) + "]> : "@ + spec_type_text(ctx.types@, views(ctx.idents@), ty.id as int),
        }
    } else {
        Seq::empty()
    }
}

/// The interned representation of an attribute.  Text payloads index the
/// identifier table and element lists index the per-kind list tables, so
/// equal attributes are equal values.
#[derive(Clone, Copy, Debug, PartialEq, Eq, Structural)]
pub enum AttrData {
    /// A constant integer with its integer type; a width-one integer type
    /// makes this the boolean attribute `true` or `false`.
    IntegerAttr { value: i64, ty: TypeRef },
    /// A constant floating-point value, kept in its textual form (`text`
    /// indexes the identifier table) with its float type; no float value
    /// crosses this layer.
    FloatAttr { text: usize, ty: TypeRef },
    /// A constant string; `value` indexes the identifier table.
    StringAttr { value: usize },
    /// The `unit` attribute.
    UnitAttr,
    /// A type used as an attribute.
    TypeAttr { ty: TypeRef },
    /// A dense array of booleans; `elems` indexes the boolean list table.
    DenseBool { elems: usize },
    /// A dense array of 32-bit integers; `elems` indexes the 32-bit
    /// integer list table.
    DenseI32 { elems: usize },
    /// A dense tensor of strings; `elems` indexes the string list table
    /// and `ty` is the tensor type of the whole value.
    DenseStrings { elems: usize, ty: TypeRef },
}

/// A reference to an attribute interned in a context.  Copyable; never
/// separately destroyed; valid exactly as long as its context.
#[derive(Clone, Copy, Debug, PartialEq, Eq, Structural)]
pub struct AttributeRef {
    pub id: usize,
}

impl AttributeRef {
    /// Whether this handle points into the attribute table of `ctx`.
    pub open spec fn valid(&self, ctx: &Context) -> bool {
        self.id < ctx.attrs@.len()
    }

    /// The interned data this handle stands for.
    pub open spec fn data(&self, ctx: &Context) -> AttrData {
        ctx.attrs@[self.id as int]
    }
}

/// A transient `(name, attribute)` pair; not interned itself, just two
/// references with a shared owner.
#[derive(Clone, Copy, Debug, PartialEq, Eq, Structural)]
pub struct NamedAttribute {
    pub name: IdentifierRef,
    pub attribute: AttributeRef,
}

impl NamedAttribute {
    /// Returns the name of the pair.
    pub fn name(&self) -> (r: IdentifierRef)
        ensures
            r == self.name,
    {
        self.name
    }

    /// Returns the attribute value of the pair.
    pub fn attribute(&self) -> (r: AttributeRef)
        ensures
            r == self.attribute,
    {
        self.attribute
    }
}

/// A reference to a boolean attribute.
#[derive(Clone, Copy, Debug, PartialEq, Eq, Structural)]
pub struct BoolAttributeRef {
    pub id: usize,
}

/// A reference to an integer attribute.
#[derive(Clone, Copy, Debug, PartialEq, Eq, Structural)]
pub struct IntegerAttributeRef {
    pub id: usize,
}

/// A reference to a floating-point attribute.
#[derive(Clone, Copy, Debug, PartialEq, Eq, Structural)]
pub struct FloatAttributeRef {
    pub id: usize,
}

/// A reference to a string attribute.
#[derive(Clone, Copy, Debug, PartialEq, Eq, Structural)]
pub struct StringAttributeRef {
    pub id: usize,
}

/// A reference to a dense array of booleans.
#[derive(Clone, Copy, Debug, PartialEq, Eq, Structural)]
pub struct DenseBoolAttributeRef {
    pub id: usize,
}

/// A reference to a dense array of 32-bit integers.
#[derive(Clone, Copy, Debug, PartialEq, Eq, Structural)]
pub struct DenseI32AttributeRef {
    pub id: usize,
}

/// A reference to a dense-elements attribute (here: a dense tensor of
/// strings).
#[derive(Clone, Copy, Debug, PartialEq, Eq, Structural)]
pub struct DenseElementsAttributeRef {
    pub id: usize,
}

/// A reference to a dense tensor of strings.
#[derive(Clone, Copy, Debug, PartialEq, Eq, Structural)]
pub struct DenseStringAttributeRef {
    pub id: usize,
}


/// Appends the comma-separated printed form of a boolean list.
pub fn append_bool_elems(v: &Vec<bool>, out: &mut String)
    ensures
        final(out)@ == old(out)@ + spec_bool_elems_text(v@),
{
    let mut i: usize = 0;
    while i < v.len()
        invariant
            i <= v@.len(),
            out@ == old(out)@ + spec_bool_elems_text(v@.take(i as int)),
        decreases v@.len() - i,
    {
        if i > 0 {
            out.append(", ");
        }
        if v[i] {
            out.append("true");
        } else {
            out.append("false");
        }
        proof {
            assert(v@.take(i + 1).drop_last() =~= v@.take(i as int));
            assert(v@.take(i + 1).last() == v@[i as int]);
            assert(out@ =~= old(out)@ + spec_bool_elems_text(v@.take(i + 1)));
        }
        i = i + 1;
    }
    proof {
        assert(v@.take(v@.len() as int) =~= v@);
    }
}

/// Appends the comma-separated printed form of a 32-bit integer list.
pub fn append_i32_elems(v: &Vec<i32>, out: &mut String)
    ensures
        final(out)@ == old(out)@ + spec_i32_elems_text(v@),
{
    let mut i: usize = 0;
    while i < v.len()
        invariant
            i <= v@.len(),
            out@ == old(out)@ + spec_i32_elems_text(v@.take(i as int)),
        decreases v@.len() - i,
    {
        if i > 0 {
            out.append(", ");
        }
        append_dec_i64(out, v[i] as i64);
        proof {
            assert(v@.take(i + 1).drop_last() =~= v@.take(i as int));
            assert(v@.take(i + 1).last() == v@[i as int]);
            assert(out@ =~= old(out)@ + spec_i32_elems_text(v@.take(i + 1)));
        }
        i = i + 1;
    }
    proof {
        assert(v@.take(v@.len() as int) =~= v@);
    }
}

/// Appends the comma-separated printed form of a quoted string list.
pub fn append_str_elems(ctx: &Context, v: &Vec<usize>, out: &mut String)
    requires
        forall|m: int| 0 <= m < v@.len() ==> v@[m] < ctx.idents@.len(),
    ensures
        final(out)@ == old(out)@ + spec_str_elems_text(views(ctx.idents@), v@),
{
    let mut i: usize = 0;
    while i < v.len()
        invariant
            forall|m: int| 0 <= m < v@.len() ==> v@[m] < ctx.idents@.len(),
            i <= v@.len(),
            out@ == old(out)@ + spec_str_elems_text(views(ctx.idents@), v@.take(i as int)),
        decreases v@.len() - i,
    {
        if i > 0 {
            out.append(", ");
        }
        out.append("\"");
        let body = ctx.idents[v[i]].clone();
        out.append(body.as_str());
        out.append("\"");
        proof {
            assert(v@.take(i + 1).drop_last() =~= v@.take(i as int));
            assert(v@.take(i + 1).last() == v@[i as int]);
            assert(out@ =~= old(out)@ + spec_str_elems_text(views(ctx.idents@), v@.take(i + 1)));
        }
        i = i + 1;
    }
    proof {
        assert(v@.take(v@.len() as int) =~= v@);
    }
}

/// Appends the canonical printed form of `a` to `out`.
pub fn append_attr_text(ctx: &Context, a: AttributeRef, out: &mut String)
    requires
        ctx.wf(),
        a.valid(ctx),
    ensures
        final(out)@ == old(out)@ + spec_attr_text(ctx, a.id as int),
{
    let ghost goal = spec_attr_text(ctx, a.id as int);
    proof {
        assert(ctx.attr_entry_wf(ctx.attrs@[a.id as int]));
    }
    match ctx.attrs[a.id] {
        AttrData::IntegerAttr { value, ty } => {
            let bool_ty = match ctx.types[ty.id] {
                TypeData::Integer { signedness, width } => match signedness {
                    Signedness::Signless => width == 1,
                    _ => false,
                },
                _ => false,
            };
            if bool_ty {
                if value != 0 {
                    out.append("true");
                } else {
                    out.append("false");
                }
            } else {
                append_dec_i64(out, value);
                out.append(" : ");
                crate::types::append_type_text(ctx, ty, out);
                proof {
                    assert(out@ =~= old(out)@ + goal);
                }
            }
        },
        AttrData::FloatAttr { text, ty } => {
            let body = ctx.idents[text].clone();
            out.append(body.as_str());
            out.append(" : ");
            crate::types::append_type_text(ctx, ty, out);
            proof {
                assert(out@ =~= old(out)@ + goal);
            }
        },
        AttrData::StringAttr { value } => {
            out.append("\"");
            let body = ctx.idents[value].clone();
            out.append(body.as_str());
            out.append("\"");
            proof {
                assert(out@ =~= old(out)@ + goal);
            }
        },
        AttrData::UnitAttr => {
            out.append("unit");
        },
        AttrData::TypeAttr { ty } => {
            crate::types::append_type_text(ctx, ty, out);
        },
        AttrData::DenseBool { elems } => {
            if ctx.bool_lists[elems].len() == 0 {
                out.append("array<i1>");
            } else {
                out.append("array<i1: ");
                append_bool_elems(&ctx.bool_lists[elems], out);
                out.append(">");
                proof {
                    assert(out@ =~= old(out)@ + goal);
                }
            }
        },
        AttrData::DenseI32 { elems } => {
            if ctx.i32_lists[elems].len() == 0 {
                out.append("array<i32>");
            } else {
                out.append("array<i32: ");
                append_i32_elems(&ctx.i32_lists[elems], out);
                out.append(">");
                proof {
                    assert(out@ =~= old(out)@ + goal);
                }
            }
        },
        AttrData::DenseStrings { elems, ty } => {
            out.append("dense<[");
            append_str_elems(ctx, &ctx.str_lists[elems], out);
            out.append("]> : ");
            crate::types::append_type_text(ctx, ty, out);
            proof {
                assert(out@ =~= old(out)@ + goal);
            }
        },
    }
}


impl AttributeRef {
    /// The canonical printed form of this attribute.
    pub open spec fn text(&self, ctx: &Context) -> Seq<char> {
        spec_attr_text(ctx, self.id as int)
    }

    /// Returns the canonical printed form of the attribute.
    pub fn to_text(&self, ctx: &Context) -> (r: String)
        requires
            ctx.wf(),
            self.valid(ctx),
        ensures
            r@ == self.text(ctx),
    {
        let mut out = String::new();
        append_attr_text(ctx, *self, &mut out);
        out
    }

    /// Returns a named attribute pairing this attribute with the
    /// provided name.
    pub fn with_name(&self, ctx: &mut Context, name: &str) -> (r: NamedAttribute)
        requires
            old(ctx).wf(),
            self.valid(old(ctx)),
        ensures
            final(ctx).wf(),
            final(ctx).grew_interned_only(old(ctx)),
            r.attribute == *self,
            r.name.valid(final(ctx)),
            r.name.chars(final(ctx)) == name@,
    {
        let ident = ctx.intern_ident(name);
        proof {
            lemma_grew_idents_implies_interned(ctx, old(ctx));
        }
        NamedAttribute { name: ident, attribute: *self }
    }

    /// Returns the type of the attribute: the stated type of an integer,
    /// float or dense tensor, and the `none` type otherwise.
    pub fn get_type(&self, ctx: &mut Context) -> (r: TypeRef)
        requires
            old(ctx).wf(),
            self.valid(old(ctx)),
        ensures
            final(ctx).wf(),
            final(ctx).grew_interned_only(old(ctx)),
            r.valid(final(ctx)),
            match old(ctx).attrs@[self.id as int] {
                AttrData::IntegerAttr { value, ty } => r == ty,
                AttrData::FloatAttr { text, ty } => r == ty,
                AttrData::DenseStrings { elems, ty } => r == ty,
                _ => final(ctx).types@[r.id as int] is NoneType,
            },
    {
        proof {
            assert(ctx.attr_entry_wf(ctx.attrs@[self.id as int]));
        }
        match ctx.attrs[self.id] {
            AttrData::IntegerAttr { ty, .. } => {
                proof {
                    lemma_grew_interned_refl(ctx);
                }
                ty
            },
            AttrData::FloatAttr { ty, .. } => {
                proof {
                    lemma_grew_interned_refl(ctx);
                }
                ty
            },
            AttrData::DenseStrings { ty, .. } => {
                proof {
                    lemma_grew_interned_refl(ctx);
                }
                ty
            },
            _ => ctx.intern_type(TypeData::NoneType),
        }
    }

    /// Returns the dialect of the attribute; every attribute this model
    /// holds belongs to the builtin dialect.
    pub fn dialect(&self, ctx: &Context) -> (r: DialectRef)
        requires
            ctx.wf(),
            self.valid(ctx),
        ensures
            r.valid(ctx),
            r.spec_namespace(ctx) == "builtin"@,
    {
        builtin_dialect(ctx)
    }
}

/// Returns the loaded builtin dialect of a well-formed context.
pub fn builtin_dialect(ctx: &Context) -> (r: DialectRef)
    requires
        ctx.wf(),
    ensures
        r.valid(ctx),
        r.spec_namespace(ctx) == "builtin"@,
{
    match find_name(&ctx.loaded, "builtin") {
        Some(i) => {
            proof {
                assert(views(ctx.loaded@)[i as int] == "builtin"@);
            }
            DialectRef { id: i }
        },
        None => {
            proof {
                let bi = choose|bi: int|
                    0 <= bi < views(ctx.loaded@).len() && views(ctx.loaded@)[bi] == "builtin"@;
                assert(ctx.loaded@[bi]@ == "builtin"@);
                assert(false);
            }
            DialectRef { id: 0 }
        },
    }
}

/// The first position at or after `pos` that carries a quote, or the
/// end of the text.
pub open spec fn spec_scan_quote(s: Seq<char>, pos: int) -> int
    decreases s.len() - pos,
{
    if 0 <= pos < s.len() && s[pos] as u8 != B_QUOTE {
        spec_scan_quote(s, pos + 1)
    } else {
        pos
    }
}

/// The quote scan stays between its start and the end of the text.
pub proof fn lemma_spec_scan_quote_bounds(s: Seq<char>, pos: int)
    requires
        0 <= pos <= s.len(),
    ensures
        pos <= spec_scan_quote(s, pos) <= s.len(),
    decreases s.len() - pos,
{
    if pos < s.len() && s[pos] as u8 != B_QUOTE {
        lemma_spec_scan_quote_bounds(s, pos + 1);
    }
}

/// The outcome of reading a quoted string at position `pos`: the body's
/// bounds when a quote opens there and another closes it.
pub open spec fn spec_quoted(s: Seq<char>, pos: int) -> Option<(int, int)> {
    if 0 <= pos < s.len() && s[pos] as u8 == B_QUOTE && spec_scan_quote(s, pos + 1) < s.len() {
        Some((pos + 1, spec_scan_quote(s, pos + 1)))
    } else {
        None
    }
}

/// Reads a quoted string at position `pos`; absence when no quote opens
/// or closes it.  The returned positions delimit the body.
pub fn parse_quoted(s: &str, pos: usize) -> (r: Option<(usize, usize)>)
    requires
        s.is_ascii(),
        pos <= s@.len(),
    ensures
        match r {
            Some(b_e) => pos < b_e.0 <= b_e.1 < s@.len() && spec_quoted(s@, pos as int) == Some(
                (b_e.0 as int, b_e.1 as int),
            ),
            None => spec_quoted(s@, pos as int) is None,
        },
{
    let n = s.unicode_len();
    if pos >= n || s.get_ascii(pos) != B_QUOTE {
        return None;
    }
    let mut p: usize = pos + 1;
    while p < n && s.get_ascii(p) != B_QUOTE
        invariant
            s.is_ascii(),
            n == s@.len(),
            pos < p <= n,
            spec_scan_quote(s@, pos as int + 1) == spec_scan_quote(s@, p as int),
        decreases n - p,
    {
        p = p + 1;
    }
    proof {
        assert(spec_scan_quote(s@, p as int) == p as int);
    }
    if p >= n {
        return None;
    }
    Some((pos + 1, p))
}


/// A context-free attribute term: what a piece of attribute text
/// denotes, before any interning.
pub enum AttrTerm {
    IntegerATerm { value: i64, ty: crate::types::TypeTerm },
    FloatATerm { text: Seq<char>, ty: crate::types::TypeTerm },
    StringATerm { value: Seq<char> },
    UnitATerm,
    TypeATerm { ty: crate::types::TypeTerm },
    DenseBoolATerm { elems: Seq<bool> },
    DenseI32ATerm { elems: Seq<i32> },
    DenseStringsATerm { elems: Seq<Seq<char>>, ty: crate::types::TypeTerm },
}

/// Whether the interned attribute `a` stands for exactly the term
/// `term` in `ctx`.
pub open spec fn attr_term_denotes(ctx: &Context, a: AttributeRef, term: AttrTerm) -> bool {
    a.id < ctx.attrs@.len() && match term {
        AttrTerm::IntegerATerm { value, ty } => ctx.attrs@[a.id as int]
            matches AttrData::IntegerAttr { value: v, ty: t } && v == value
            && crate::types::term_denotes(ctx, t, ty),
        AttrTerm::FloatATerm { text, ty } => ctx.attrs@[a.id as int] matches AttrData::FloatAttr {
            text: id,
            ty: t,
        } && id < ctx.idents@.len() && views(ctx.idents@)[id as int] == text
            && crate::types::term_denotes(ctx, t, ty),
        AttrTerm::StringATerm { value } => ctx.attrs@[a.id as int] matches AttrData::StringAttr {
            value: id,
        } && id < ctx.idents@.len() && views(ctx.idents@)[id as int] == value,
        AttrTerm::UnitATerm => ctx.attrs@[a.id as int] == AttrData::UnitAttr,
        AttrTerm::TypeATerm { ty } => ctx.attrs@[a.id as int] matches AttrData::TypeAttr { ty: t }
            && crate::types::term_denotes(ctx, t, ty),
        AttrTerm::DenseBoolATerm { elems } => ctx.attrs@[a.id as int]
            matches AttrData::DenseBool { elems: k } && k < ctx.bool_lists@.len() && views(
            ctx.bool_lists@,
        )[k as int] == elems,
        AttrTerm::DenseI32ATerm { elems } => ctx.attrs@[a.id as int] matches AttrData::DenseI32 {
            elems: k,
        } && k < ctx.i32_lists@.len() && views(ctx.i32_lists@)[k as int] == elems,
        AttrTerm::DenseStringsATerm { elems, ty } => ctx.attrs@[a.id as int]
            matches AttrData::DenseStrings { elems: k, ty: t } && k < ctx.str_lists@.len()
            && views(ctx.str_lists@)[k as int].len() == elems.len() && (forall|m: int|
            0 <= m < elems.len() ==> views(ctx.str_lists@)[k as int][m] < ctx.idents@.len()
                && views(ctx.idents@)[#[trigger] views(ctx.str_lists@)[k as int][m] as int]
                == elems[m]) && crate::types::term_denotes(ctx, t, ty),
    }
}

/// Attribute denotation survives growth of the interning tables.
pub proof fn lemma_attr_term_denotes_monotone(
    c0: &Context,
    c1: &Context,
    a: AttributeRef,
    term: AttrTerm,
)
    requires
        c1.grew_interned_only(c0),
        attr_term_denotes(c0, a, term),
    ensures
        attr_term_denotes(c1, a, term),
{
    match term {
        AttrTerm::IntegerATerm { value, ty } => {
            crate::types::lemma_term_denotes_monotone(
                c0,
                c1,
                c0.attrs@[a.id as int]->IntegerAttr_ty,
                ty,
            );
        },
        AttrTerm::FloatATerm { text, ty } => {
            crate::types::lemma_term_denotes_monotone(
                c0,
                c1,
                c0.attrs@[a.id as int]->FloatAttr_ty,
                ty,
            );
        },
        AttrTerm::TypeATerm { ty } => {
            crate::types::lemma_term_denotes_monotone(
                c0,
                c1,
                c0.attrs@[a.id as int]->TypeAttr_ty,
                ty,
            );
        },
        AttrTerm::DenseStringsATerm { elems, ty } => {
            crate::types::lemma_term_denotes_monotone(
                c0,
                c1,
                c0.attrs@[a.id as int]->DenseStrings_ty,
                ty,
            );
        },
        _ => {},
    }
}

/// In one well-formed context, at most one interned attribute stands
/// for a term.
pub proof fn lemma_attr_term_denotes_injective(
    ctx: &Context,
    a: AttributeRef,
    b: AttributeRef,
    term: AttrTerm,
)
    requires
        ctx.wf(),
        attr_term_denotes(ctx, a, term),
        attr_term_denotes(ctx, b, term),
    ensures
        a == b,
{
    match term {
        AttrTerm::IntegerATerm { value, ty } => {
            crate::types::lemma_term_denotes_injective(
                ctx,
                ctx.attrs@[a.id as int]->IntegerAttr_ty,
                ctx.attrs@[b.id as int]->IntegerAttr_ty,
                ty,
            );
        },
        AttrTerm::FloatATerm { text, ty } => {
            crate::types::lemma_term_denotes_injective(
                ctx,
                ctx.attrs@[a.id as int]->FloatAttr_ty,
                ctx.attrs@[b.id as int]->FloatAttr_ty,
                ty,
            );
            let ia = ctx.attrs@[a.id as int]->FloatAttr_text;
            let ib = ctx.attrs@[b.id as int]->FloatAttr_text;
            if ia != ib {
                if ia < ib {
                    assert(views(ctx.idents@)[ia as int] != views(ctx.idents@)[ib as int]);
                } else {
                    assert(views(ctx.idents@)[ib as int] != views(ctx.idents@)[ia as int]);
                }
            }
        },
        AttrTerm::StringATerm { value } => {
            let ia = ctx.attrs@[a.id as int]->StringAttr_value;
            let ib = ctx.attrs@[b.id as int]->StringAttr_value;
            if ia != ib {
                if ia < ib {
                    assert(views(ctx.idents@)[ia as int] != views(ctx.idents@)[ib as int]);
                } else {
                    assert(views(ctx.idents@)[ib as int] != views(ctx.idents@)[ia as int]);
                }
            }
        },
        AttrTerm::UnitATerm => {},
        AttrTerm::TypeATerm { ty } => {
            crate::types::lemma_term_denotes_injective(
                ctx,
                ctx.attrs@[a.id as int]->TypeAttr_ty,
                ctx.attrs@[b.id as int]->TypeAttr_ty,
                ty,
            );
        },
        AttrTerm::DenseBoolATerm { elems } => {
            let ka = ctx.attrs@[a.id as int]->DenseBool_elems;
            let kb = ctx.attrs@[b.id as int]->DenseBool_elems;
            if ka != kb {
                if ka < kb {
                    assert(views(ctx.bool_lists@)[ka as int] != views(ctx.bool_lists@)[kb as int]);
                } else {
                    assert(views(ctx.bool_lists@)[kb as int] != views(ctx.bool_lists@)[ka as int]);
                }
            }
        },
        AttrTerm::DenseI32ATerm { elems } => {
            let ka = ctx.attrs@[a.id as int]->DenseI32_elems;
            let kb = ctx.attrs@[b.id as int]->DenseI32_elems;
            if ka != kb {
                if ka < kb {
                    assert(views(ctx.i32_lists@)[ka as int] != views(ctx.i32_lists@)[kb as int]);
                } else {
                    assert(views(ctx.i32_lists@)[kb as int] != views(ctx.i32_lists@)[ka as int]);
                }
            }
        },
        AttrTerm::DenseStringsATerm { elems, ty } => {
            crate::types::lemma_term_denotes_injective(
                ctx,
                ctx.attrs@[a.id as int]->DenseStrings_ty,
                ctx.attrs@[b.id as int]->DenseStrings_ty,
                ty,
            );
            let ka = ctx.attrs@[a.id as int]->DenseStrings_elems;
            let kb = ctx.attrs@[b.id as int]->DenseStrings_elems;
            if ka != kb {
                assert forall|m: int|
                    0 <= m < elems.len() implies views(ctx.str_lists@)[ka as int][m] == views(
                    ctx.str_lists@,
                )[kb as int][m] by {
                    let ia = views(ctx.str_lists@)[ka as int][m];
                    let ib = views(ctx.str_lists@)[kb as int][m];
                    if ia != ib {
                        if ia < ib {
                            assert(views(ctx.idents@)[ia as int] != views(ctx.idents@)[ib as int]);
                        } else {
                            assert(views(ctx.idents@)[ib as int] != views(ctx.idents@)[ia as int]);
                        }
                    }
                }
                assert(views(ctx.str_lists@)[ka as int] =~= views(ctx.str_lists@)[kb as int]);
                if ka < kb {
                    assert(views(ctx.str_lists@)[ka as int] != views(ctx.str_lists@)[kb as int]);
                } else {
                    assert(views(ctx.str_lists@)[kb as int] != views(ctx.str_lists@)[ka as int]);
                }
            }
        },
    }
    if a.id != b.id {
        if a.id < b.id {
            assert(ctx.attrs@[a.id as int] != ctx.attrs@[b.id as int]);
        } else {
            assert(ctx.attrs@[b.id as int] != ctx.attrs@[a.id as int]);
        }
    }
}


/// The number grammar: the integer or float attribute term a piece of
/// text denotes from `pos`, with the position after it.
pub open spec fn spec_parse_number(s: Seq<char>, pos: int, allow_unregistered: bool) -> Option<
    (AttrTerm, int),
> {
    if !(0 <= pos < s.len()) {
        None
    } else {
        let negative = s[pos] as u8 == B_MINUS;
        let dstart = if negative {
            pos + 1
        } else {
            pos
        };
        if dstart >= s.len() {
            None
        } else {
            match spec_digits(s, dstart) {
                Some(q) => {
                    let is_float = q.1 < s.len() && s[q.1] as u8 == crate::types::B_DOT;
                    let after = if is_float {
                        match spec_digits(s, q.1 + 1) {
                            Some(q2) => Some(q2.1),
                            None => None,
                        }
                    } else {
                        Some(q.1)
                    };
                    match after {
                        Some(p) => {
                            let suffix = spec_expect_lit(s, p, " : "@);
                            if is_float {
                                let body = s.subrange(pos, p);
                                match suffix {
                                    Some(ps) => match crate::types::spec_parse_type(
                                        s,
                                        ps,
                                        allow_unregistered,
                                    ) {
                                        Some(e) => if e.0 is FloatTerm {
                                            Some(
                                                (AttrTerm::FloatATerm { text: body, ty: e.0 }, e.1),
                                            )
                                        } else {
                                            None
                                        },
                                        None => None,
                                    },
                                    None => Some(
                                        (
                                            AttrTerm::FloatATerm {
                                                text: body,
                                                ty: crate::types::TypeTerm::FloatTerm {
                                                    kind: crate::types::FloatKind::F64,
                                                },
                                            },
                                            p,
                                        ),
                                    ),
                                }
                            } else {
                                if q.0 > 9_223_372_036_854_775_807 {
                                    None
                                } else {
                                    let value = (if negative {
                                        -q.0
                                    } else {
                                        q.0
                                    }) as i64;
                                    match suffix {
                                        Some(ps) => match crate::types::spec_parse_type(
                                            s,
                                            ps,
                                            allow_unregistered,
                                        ) {
                                            Some(e) => if e.0 is IntegerTerm {
                                                Some(
                                                    (
                                                        AttrTerm::IntegerATerm {
                                                            value,
                                                            ty: e.0,
                                                        },
                                                        e.1,
                                                    ),
                                                )
                                            } else {
                                                None
                                            },
                                            None => None,
                                        },
                                        None => Some(
                                            (
                                                AttrTerm::IntegerATerm {
                                                    value,
                                                    ty: crate::types::TypeTerm::IntegerTerm {
                                                        signedness: Signedness::Signless,
                                                        width: 64,
                                                    },
                                                },
                                                p,
                                            ),
                                        ),
                                    }
                                }
                            }
                        },
                        None => None,
                    }
                },
                None => None,
            }
        }
    }
}

/// Continues reading comma-separated boolean literals with `acc`
/// already read, up to the closing angle bracket.
pub open spec fn spec_read_bool_elems(s: Seq<char>, pos: int, acc: Seq<bool>) -> Option<
    (Seq<bool>, int),
>
    decreases s.len() - pos,
{
    if !(0 <= pos <= s.len()) {
        None
    } else {
        let step = match spec_expect_lit(s, pos, "true"@) {
            Some(p1) => Some((acc.push(true), p1)),
            None => match spec_expect_lit(s, pos, "false"@) {
                Some(p1) => Some((acc.push(false), p1)),
                None => None,
            },
        };
        match step {
            Some(ap) => if ap.1 < s.len() && s[ap.1] as u8 == crate::types::B_GREATER {
                Some((ap.0, ap.1 + 1))
            } else {
                match spec_expect_lit(s, ap.1, ", "@) {
                    Some(p2) => if p2 <= ap.1 {
                        None
                    } else {
                        spec_read_bool_elems(s, p2, ap.0)
                    },
                    None => None,
                }
            },
            None => None,
        }
    }
}

/// Continues reading comma-separated 32-bit integer literals with `acc`
/// already read, up to the closing angle bracket.
pub open spec fn spec_read_i32_elems(s: Seq<char>, pos: int, acc: Seq<i32>) -> Option<
    (Seq<i32>, int),
>
    decreases s.len() - pos,
{
    if !(0 <= pos <= s.len()) {
        None
    } else {
        let negative = pos < s.len() && s[pos] as u8 == B_MINUS;
        let dstart = if negative {
            pos + 1
        } else {
            pos
        };
        if dstart > s.len() {
            None
        } else {
            match spec_digits(s, dstart) {
                Some(q) => if q.0 > 2_147_483_648 || (!negative && q.0 > 2_147_483_647) || q.1
                    <= pos {
                    None
                } else {
                    let value = (if negative {
                        -q.0
                    } else {
                        q.0
                    }) as i32;
                    let acc1 = acc.push(value);
                    if q.1 < s.len() && s[q.1] as u8 == crate::types::B_GREATER {
                        Some((acc1, q.1 + 1))
                    } else {
                        match spec_expect_lit(s, q.1, ", "@) {
                            Some(p2) => if p2 <= q.1 {
                                None
                            } else {
                                spec_read_i32_elems(s, p2, acc1)
                            },
                            None => None,
                        }
                    }
                },
                None => None,
            }
        }
    }
}

/// The dense-array grammar: the boolean or 32-bit integer array term a
/// piece of text denotes from `pos`.
pub open spec fn spec_parse_array(s: Seq<char>, pos: int) -> Option<(AttrTerm, int)> {
    match spec_expect_lit(s, pos, "array<i1>"@) {
        Some(p) => Some((AttrTerm::DenseBoolATerm { elems: Seq::empty() }, p)),
        None => match spec_expect_lit(s, pos, "array<i32>"@) {
            Some(p) => Some((AttrTerm::DenseI32ATerm { elems: Seq::empty() }, p)),
            None => match spec_expect_lit(s, pos, "array<i1: "@) {
                Some(p0) => match spec_read_bool_elems(s, p0, Seq::empty()) {
                    Some(ep) => Some((AttrTerm::DenseBoolATerm { elems: ep.0 }, ep.1)),
                    None => None,
                },
                None => match spec_expect_lit(s, pos, "array<i32: "@) {
                    Some(p0) => match spec_read_i32_elems(s, p0, Seq::empty()) {
                        Some(ep) => Some((AttrTerm::DenseI32ATerm { elems: ep.0 }, ep.1)),
                        None => None,
                    },
                    None => None,
                },
            },
        },
    }
}

/// Continues reading comma-separated quoted strings with `acc` already
/// read, up to the closing square bracket.
pub open spec fn spec_read_str_elems(s: Seq<char>, pos: int, acc: Seq<Seq<char>>) -> Option<
    (Seq<Seq<char>>, int),
>
    decreases s.len() - pos,
        via spec_read_str_elems_decreases
{
    if !(0 <= pos <= s.len()) {
        None
    } else {
        match spec_quoted(s, pos) {
            Some(be) => {
                let acc1 = acc.push(s.subrange(be.0, be.1));
                let p = be.1 + 1;
                if p < s.len() && s[p] as u8 == B_RBRACKET {
                    Some((acc1, p + 1))
                } else {
                    match spec_expect_lit(s, p, ", "@) {
                        Some(p2) => if p2 <= p {
                            None
                        } else {
                            spec_read_str_elems(s, p2, acc1)
                        },
                        None => None,
                    }
                }
            },
            None => None,
        }
    }
}

#[via_fn]
proof fn spec_read_str_elems_decreases(s: Seq<char>, pos: int, acc: Seq<Seq<char>>) {
    if 0 <= pos <= s.len() {
        match spec_quoted(s, pos) {
            Some(be) => {
                lemma_spec_scan_quote_bounds(s, pos + 1);
            },
            None => {},
        }
    }
}

/// The dense-strings grammar: the string tensor term a piece of text
/// denotes from `pos`.
pub open spec fn spec_parse_dense(s: Seq<char>, pos: int, allow_unregistered: bool) -> Option<
    (AttrTerm, int),
> {
    match spec_expect_lit(s, pos, "dense<["@) {
        Some(p0) => {
            let body = if p0 < s.len() && s[p0] as u8 == B_RBRACKET {
                Some((Seq::<Seq<char>>::empty(), p0 + 1))
            } else {
                spec_read_str_elems(s, p0, Seq::empty())
            };
            match body {
                Some(ep) => {
                    match spec_expect_lit(s, ep.1, "> : "@) {
                        Some(p2) => match crate::types::spec_parse_type(
                            s,
                            p2,
                            allow_unregistered,
                        ) {
                            Some(e) => Some(
                                (AttrTerm::DenseStringsATerm { elems: ep.0, ty: e.0 }, e.1),
                            ),
                            None => None,
                        },
                        None => None,
                    }
                },
                None => None,
            }
        },
        None => None,
    }
}

/// The attribute grammar: the term a piece of ASCII attribute text
/// denotes from position `pos`, with the position after it, or absence
/// when no attribute stands there.  The executable reader is pinned to
/// this function.
pub open spec fn spec_parse_attr(s: Seq<char>, pos: int, allow_unregistered: bool) -> Option<
    (AttrTerm, int),
> {
    if !(0 <= pos < s.len()) {
        None
    } else {
        let c = s[pos] as u8;
        if c == B_QUOTE {
            match spec_quoted(s, pos) {
                Some(be) => Some(
                    (AttrTerm::StringATerm { value: s.subrange(be.0, be.1) }, be.1 + 1),
                ),
                None => None,
            }
        } else if B_DIGIT_0 <= c <= crate::types::B_DIGIT_9 || c == B_MINUS {
            spec_parse_number(s, pos, allow_unregistered)
        } else if c == B_LOWER_T && pos + 1 < s.len() && s[pos + 1] as u8 != B_LOWER_E {
            match spec_expect_lit(s, pos, "true"@) {
                Some(p) => Some(
                    (
                        AttrTerm::IntegerATerm {
                            value: 1,
                            ty: crate::types::TypeTerm::IntegerTerm {
                                signedness: Signedness::Signless,
                                width: 1,
                            },
                        },
                        p,
                    ),
                ),
                None => None,
            }
        } else if c == B_LOWER_F && pos + 1 < s.len() && !(B_DIGIT_0 <= s[pos + 1] as u8
            <= crate::types::B_DIGIT_9) {
            match spec_expect_lit(s, pos, "false"@) {
                Some(p) => Some(
                    (
                        AttrTerm::IntegerATerm {
                            value: 0,
                            ty: crate::types::TypeTerm::IntegerTerm {
                                signedness: Signedness::Signless,
                                width: 1,
                            },
                        },
                        p,
                    ),
                ),
                None => None,
            }
        } else if c == B_LOWER_U && pos + 1 < s.len() && s[pos + 1] as u8 == B_LOWER_N {
            match spec_expect_lit(s, pos, "unit"@) {
                Some(p) => Some((AttrTerm::UnitATerm, p)),
                None => None,
            }
        } else if c == B_LOWER_A {
            spec_parse_array(s, pos)
        } else if c == B_LOWER_D && pos + 1 < s.len() && s[pos + 1] as u8 == B_LOWER_E {
            spec_parse_dense(s, pos, allow_unregistered)
        } else {
            match crate::types::spec_parse_type(s, pos, allow_unregistered) {
                Some(e) => Some((AttrTerm::TypeATerm { ty: e.0 }, e.1)),
                None => None,
            }
        }
    }
}

/// Reads one attribute at position `pos` of `s`, interning what it
/// reads: the outcome is exactly what the attribute grammar
/// [`spec_parse_attr`] says of the text, and a returned handle stands
/// for the denoted term.
#[verifier::rlimit(100)]
#[verifier::spinoff_prover]
pub fn parse_attr_at(ctx: &mut Context, s: &str, pos: usize) -> (r: Option<(AttributeRef, usize)>)
    requires
        old(ctx).wf(),
        s.is_ascii(),
        pos <= s@.len(),
    ensures
        final(ctx).wf(),
        final(ctx).grew_interned_only(old(ctx)),
        match r {
            Some(a_p) => a_p.0.valid(final(ctx)) && pos <= a_p.1 <= s@.len() && (spec_parse_attr(
                s@,
                pos as int,
                old(ctx).allow_unregistered,
            ) matches Some(q) && q.1 == a_p.1 as int && attr_term_denotes(final(ctx), a_p.0, q.0)),
            None => spec_parse_attr(s@, pos as int, old(ctx).allow_unregistered) is None,
        },
{
    proof {
        lemma_grew_interned_refl(ctx);
    }
    let ghost allow0 = old(ctx).allow_unregistered;
    let ghost sp = spec_parse_attr(s@, pos as int, allow0);
    let n = s.unicode_len();
    if pos >= n {
        return None;
    }
    let c = s.get_ascii(pos);
    proof {
        assert(c == s@[pos as int] as u8);
    }
    if c == B_QUOTE {
        match parse_quoted(s, pos) {
            Some((b, e)) => {
                let body = s.substring_ascii(b, e);
                let ident = ctx.intern_ident(body);
                let ghost mid = *ctx;
                proof {
                    lemma_grew_idents_implies_interned(&mid, old(ctx));
                }
                let a = ctx.intern_attr(AttrData::StringAttr { value: ident.id });
                proof {
                    lemma_grew_interned_trans(ctx, &mid, old(ctx));
                    assert(sp matches Some(q) && q.1 == e as int + 1 && q.0 == (
                    AttrTerm::StringATerm { value: s@.subrange(b as int, e as int) }));
                    assert(attr_term_denotes(ctx, a, AttrTerm::StringATerm {
                        value: s@.subrange(b as int, e as int),
                    }));
                }
                Some((a, e + 1))
            },
            None => None,
        }
    } else if is_digit_byte(c) || c == B_MINUS {
        parse_number_attr(ctx, s, pos)
    } else if c == B_LOWER_T && pos + 1 < n && s.get_ascii(pos + 1) != B_LOWER_E {
        match expect_lit(s, pos, "true") {
            Some(p) => {
                let one = ctx.intern_type(
                    TypeData::Integer { signedness: Signedness::Signless, width: 1 },
                );
                let ghost mid = *ctx;
                let a = ctx.intern_attr(AttrData::IntegerAttr { value: 1, ty: one });
                proof {
                    lemma_grew_interned_trans(ctx, &mid, old(ctx));
                    assert(sp matches Some(q) && q.1 == p as int && q.0 == (
                    AttrTerm::IntegerATerm {
                        value: 1,
                        ty: crate::types::TypeTerm::IntegerTerm {
                            signedness: Signedness::Signless,
                            width: 1,
                        },
                    }));
                }
                Some((a, p))
            },
            None => None,
        }
    } else if c == B_LOWER_F && pos + 1 < n && !is_digit_byte(s.get_ascii(pos + 1)) {
        match expect_lit(s, pos, "false") {
            Some(p) => {
                let one = ctx.intern_type(
                    TypeData::Integer { signedness: Signedness::Signless, width: 1 },
                );
                let ghost mid = *ctx;
                let a = ctx.intern_attr(AttrData::IntegerAttr { value: 0, ty: one });
                proof {
                    lemma_grew_interned_trans(ctx, &mid, old(ctx));
                    assert(sp matches Some(q) && q.1 == p as int && q.0 == (
                    AttrTerm::IntegerATerm {
                        value: 0,
                        ty: crate::types::TypeTerm::IntegerTerm {
                            signedness: Signedness::Signless,
                            width: 1,
                        },
                    }));
                }
                Some((a, p))
            },
            None => None,
        }
    } else if c == B_LOWER_U && pos + 1 < n && s.get_ascii(pos + 1) == B_LOWER_N {
        match expect_lit(s, pos, "unit") {
            Some(p) => {
                let a = ctx.intern_attr(AttrData::UnitAttr);
                proof {
                    assert(sp matches Some(q) && q.1 == p as int && q.0 == AttrTerm::UnitATerm);
                }
                Some((a, p))
            },
            None => None,
        }
    } else if c == B_LOWER_A {
        parse_array_attr(ctx, s, pos)
    } else if c == B_LOWER_D && pos + 1 < n && s.get_ascii(pos + 1) == B_LOWER_E {
        parse_dense_attr(ctx, s, pos)
    } else {
        match parse_type_at(ctx, s, pos) {
            Some((ty, p)) => {
                let ghost tyterm = crate::types::spec_parse_type(s@, pos as int, allow0)->Some_0.0;
                let ghost ct = *ctx;
                let a = ctx.intern_attr(AttrData::TypeAttr { ty });
                proof {
                    lemma_grew_interned_trans(ctx, &ct, old(ctx));
                    crate::types::lemma_term_denotes_monotone(&ct, ctx, ty, tyterm);
                    assert(sp matches Some(q) && q.1 == p as int && q.0 == (AttrTerm::TypeATerm {
                        ty: tyterm,
                    }));
                    assert(attr_term_denotes(ctx, a, AttrTerm::TypeATerm { ty: tyterm }));
                }
                Some((a, p))
            },
            None => None,
        }
    }
}

/// ASCII code of `e`.
pub const B_LOWER_E: u8 = 101;

/// Reads an integer or float attribute, with its optional ` : type`
/// suffix: the outcome is exactly what the number grammar
/// [`spec_parse_number`] says of the text.
#[verifier::rlimit(100)]
#[verifier::spinoff_prover]
pub fn parse_number_attr(ctx: &mut Context, s: &str, pos: usize) -> (r: Option<
    (AttributeRef, usize),
>)
    requires
        old(ctx).wf(),
        s.is_ascii(),
        pos <= s@.len(),
    ensures
        final(ctx).wf(),
        final(ctx).grew_interned_only(old(ctx)),
        match r {
            Some(a_p) => a_p.0.valid(final(ctx)) && pos <= a_p.1 <= s@.len() && (
            spec_parse_number(s@, pos as int, old(ctx).allow_unregistered) matches Some(q) && q.1
                == a_p.1 as int && attr_term_denotes(final(ctx), a_p.0, q.0)),
            None => spec_parse_number(s@, pos as int, old(ctx).allow_unregistered) is None,
        },
{
    proof {
        lemma_grew_interned_refl(ctx);
    }
    let ghost allow0 = old(ctx).allow_unregistered;
    let ghost sp = spec_parse_number(s@, pos as int, allow0);
    let n = s.unicode_len();
    if pos >= n {
        return None;
    }
    let negative = s.get_ascii(pos) == B_MINUS;
    let dstart = if negative {
        pos + 1
    } else {
        pos
    };
    if dstart >= n {
        return None;
    }
    match parse_digits(s, dstart) {
        Some((v, p1)) => {
            let mut is_float = false;
            let mut p: usize = p1;
            if p < n && s.get_ascii(p) == crate::types::B_DOT {
                match parse_digits(s, p + 1) {
                    Some((_frac, p2)) => {
                        is_float = true;
                        p = p2;
                    },
                    None => {
                        return None;
                    },
                }
            }
            let text_end = p;
            let suffix = expect_lit(s, p, " : ");
            if is_float {
                let body = s.substring_ascii(pos, text_end);
                let ident = ctx.intern_ident(body);
                let ghost mid1 = *ctx;
                proof {
                    lemma_grew_idents_implies_interned(&mid1, old(ctx));
                }
                match suffix {
                    Some(ps) => {
                    match parse_type_at(ctx, s, ps) {
                        Some((ty, p3)) => {
                            let ghost tyterm = crate::types::spec_parse_type(
                                s@,
                                ps as int,
                                allow0,
                            )->Some_0.0;
                            let fl = match ctx.types[ty.id] {
                                TypeData::Float { .. } => true,
                                _ => false,
                            };
                            proof {
                                assert(fl <==> tyterm is FloatTerm);
                            }
                            if !fl {
                                proof {
                                    lemma_grew_interned_trans(ctx, &mid1, old(ctx));
                                }
                                return None;
                            }
                            let ghost mid2 = *ctx;
                            let a = ctx.intern_attr(AttrData::FloatAttr { text: ident.id, ty });
                            proof {
                                lemma_grew_interned_trans(&mid2, &mid1, old(ctx));
                                lemma_grew_interned_trans(ctx, &mid2, old(ctx));
                                crate::types::lemma_term_denotes_monotone(&mid2, ctx, ty, tyterm);
                                assert(sp matches Some(q) && q.1 == p3 as int && q.0 == (
                                AttrTerm::FloatATerm {
                                    text: s@.subrange(pos as int, text_end as int),
                                    ty: tyterm,
                                }));
                                assert(attr_term_denotes(ctx, a, AttrTerm::FloatATerm {
                                    text: s@.subrange(pos as int, text_end as int),
                                    ty: tyterm,
                                }));
                            }
                            Some((a, p3))
                        },
                        None => {
                            proof {
                                lemma_grew_interned_trans(ctx, &mid1, old(ctx));
                            }
                            None
                        },
                    }
                    },
                    None => {
                    let ty = ctx.intern_type(TypeData::Float { kind: crate::types::FloatKind::F64 });
                    let ghost mid2 = *ctx;
                    let a = ctx.intern_attr(AttrData::FloatAttr { text: ident.id, ty });
                    proof {
                        lemma_grew_interned_trans(&mid2, &mid1, old(ctx));
                        lemma_grew_interned_trans(ctx, &mid2, old(ctx));
                        assert(sp matches Some(q) && q.1 == p as int && q.0 == (
                        AttrTerm::FloatATerm {
                            text: s@.subrange(pos as int, text_end as int),
                            ty: crate::types::TypeTerm::FloatTerm {
                                kind: crate::types::FloatKind::F64,
                            },
                        }));
                        assert(attr_term_denotes(ctx, a, AttrTerm::FloatATerm {
                            text: s@.subrange(pos as int, text_end as int),
                            ty: crate::types::TypeTerm::FloatTerm {
                                kind: crate::types::FloatKind::F64,
                            },
                        }));
                    }
                    Some((a, p))
                    },
                }
            } else {
                if v > 9_223_372_036_854_775_807u64 {
                    return None;
                }
                let value: i64 = if negative {
                    (-(v as i128)) as i64
                } else {
                    v as i64
                };
                match suffix {
                    Some(ps) => {
                    match parse_type_at(ctx, s, ps) {
                        Some((ty, p3)) => {
                            let ghost tyterm = crate::types::spec_parse_type(
                                s@,
                                ps as int,
                                allow0,
                            )->Some_0.0;
                            let it = match ctx.types[ty.id] {
                                TypeData::Integer { .. } => true,
                                _ => false,
                            };
                            proof {
                                assert(it <==> tyterm is IntegerTerm);
                            }
                            if !it {
                                return None;
                            }
                            let ghost mid = *ctx;
                            let a = ctx.intern_attr(AttrData::IntegerAttr { value, ty });
                            proof {
                                lemma_grew_interned_trans(ctx, &mid, old(ctx));
                                crate::types::lemma_term_denotes_monotone(&mid, ctx, ty, tyterm);
                                assert(sp matches Some(q) && q.1 == p3 as int && q.0 == (
                                AttrTerm::IntegerATerm { value, ty: tyterm }));
                                assert(attr_term_denotes(ctx, a, AttrTerm::IntegerATerm {
                                    value,
                                    ty: tyterm,
                                }));
                            }
                            Some((a, p3))
                        },
                        None => None,
                    }
                    },
                    None => {
                    let ty = ctx.intern_type(
                        TypeData::Integer { signedness: Signedness::Signless, width: 64 },
                    );
                    let ghost mid = *ctx;
                    let a = ctx.intern_attr(AttrData::IntegerAttr { value, ty });
                    proof {
                        lemma_grew_interned_trans(ctx, &mid, old(ctx));
                        assert(sp matches Some(q) && q.1 == p as int && q.0 == (
                        AttrTerm::IntegerATerm {
                            value,
                            ty: crate::types::TypeTerm::IntegerTerm {
                                signedness: Signedness::Signless,
                                width: 64,
                            },
                        }));
                    }
                    Some((a, p))
                    },
                }
            }
        },
        None => None,
    }
}

/// Reads a dense array attribute `array<i1: ...>` or `array<i32: ...>`:
/// the outcome is exactly what the dense-array grammar
/// [`spec_parse_array`] says of the text.
#[verifier::rlimit(100)]
#[verifier::spinoff_prover]
pub fn parse_array_attr(ctx: &mut Context, s: &str, pos: usize) -> (r: Option<
    (AttributeRef, usize),
>)
    requires
        old(ctx).wf(),
        s.is_ascii(),
        pos <= s@.len(),
    ensures
        final(ctx).wf(),
        final(ctx).grew_interned_only(old(ctx)),
        match r {
            Some(a_p) => a_p.0.valid(final(ctx)) && pos <= a_p.1 <= s@.len() && (spec_parse_array(
                s@,
                pos as int,
            ) matches Some(q) && q.1 == a_p.1 as int && attr_term_denotes(final(ctx), a_p.0, q.0)),
            None => spec_parse_array(s@, pos as int) is None,
        },
{
    proof {
        lemma_grew_interned_refl(ctx);
    }
    let ghost sp = spec_parse_array(s@, pos as int);
    let n = s.unicode_len();
    match expect_lit(s, pos, "array<i1>") {
        Some(p) => {
            let elems = ctx.intern_bool_list(Vec::new());
            let ghost mid = *ctx;
            let a = ctx.intern_attr(AttrData::DenseBool { elems });
            proof {
                lemma_grew_interned_trans(ctx, &mid, old(ctx));
                assert(sp matches Some(q) && q.1 == p as int && q.0 == (AttrTerm::DenseBoolATerm {
                    elems: Seq::empty(),
                }));
                assert(views(ctx.bool_lists@)[elems as int] =~= Seq::<bool>::empty());
            }
            return Some((a, p));
        },
        None => {},
    }
    match expect_lit(s, pos, "array<i32>") {
        Some(p) => {
            let elems = ctx.intern_i32_list(Vec::new());
            let ghost mid = *ctx;
            let a = ctx.intern_attr(AttrData::DenseI32 { elems });
            proof {
                lemma_grew_interned_trans(ctx, &mid, old(ctx));
                assert(sp matches Some(q) && q.1 == p as int && q.0 == (AttrTerm::DenseI32ATerm {
                    elems: Seq::empty(),
                }));
                assert(views(ctx.i32_lists@)[elems as int] =~= Seq::<i32>::empty());
            }
            return Some((a, p));
        },
        None => {},
    }
    match expect_lit(s, pos, "array<i1: ") {
        Some(p0) => {
            let mut values: Vec<bool> = Vec::new();
            let mut p: usize = p0;
            loop
                invariant
                    old(ctx).wf(),
                    *ctx == *old(ctx),
                    s.is_ascii(),
                    n == s@.len(),
                    pos <= p <= n,
                    sp == spec_parse_array(s@, pos as int),
                    spec_expect_lit(s@, pos as int, "array<i1>"@) is None,
                    spec_expect_lit(s@, pos as int, "array<i32>"@) is None,
                    spec_expect_lit(s@, pos as int, "array<i1: "@) == Some(p0 as int),
                    spec_read_bool_elems(s@, p0 as int, Seq::empty()) == spec_read_bool_elems(
                        s@,
                        p as int,
                        values@,
                    ),
                decreases n - p,
            {
                let ghost p_entry = p as int;
                let ghost values_entry = values@;
                match expect_lit(s, p, "true") {
                    Some(p1) => {
                        values.push(true);
                        p = p1;
                    },
                    None => {
                        match expect_lit(s, p, "false") {
                            Some(p1) => {
                                values.push(false);
                                p = p1;
                            },
                            None => {
                                return None;
                            },
                        }
                    },
                }
                if p < n && s.get_ascii(p) == crate::types::B_GREATER {
                    proof {
                        assert(spec_read_bool_elems(s@, p_entry, values_entry) == Some(
                            (values@, p as int + 1),
                        ));
                    }
                    let elems = ctx.intern_bool_list(values);
                    let ghost mid = *ctx;
                    let a = ctx.intern_attr(AttrData::DenseBool { elems });
                    proof {
                        lemma_grew_interned_trans(ctx, &mid, old(ctx));
                    }
                    return Some((a, p + 1));
                }
                match expect_lit(s, p, ", ") {
                    Some(p1) => {
                        if p1 <= p {
                            return None;
                        }
                        proof {
                            assert(spec_read_bool_elems(s@, p_entry, values_entry)
                                == spec_read_bool_elems(s@, p1 as int, values@));
                        }
                        p = p1;
                    },
                    None => {
                        return None;
                    },
                }
            }
        },
        None => {},
    }
    match expect_lit(s, pos, "array<i32: ") {
        Some(p0) => {
            let mut values: Vec<i32> = Vec::new();
            let mut p: usize = p0;
            loop
                invariant
                    old(ctx).wf(),
                    *ctx == *old(ctx),
                    s.is_ascii(),
                    n == s@.len(),
                    pos <= p <= n,
                    sp == spec_parse_array(s@, pos as int),
                    spec_expect_lit(s@, pos as int, "array<i1>"@) is None,
                    spec_expect_lit(s@, pos as int, "array<i32>"@) is None,
                    spec_expect_lit(s@, pos as int, "array<i1: "@) is None,
                    spec_expect_lit(s@, pos as int, "array<i32: "@) == Some(p0 as int),
                    spec_read_i32_elems(s@, p0 as int, Seq::empty()) == spec_read_i32_elems(
                        s@,
                        p as int,
                        values@,
                    ),
                decreases n - p,
            {
                let ghost p_entry = p as int;
                let ghost values_entry = values@;
                let negative = p < n && s.get_ascii(p) == B_MINUS;
                let dstart = if negative {
                    p + 1
                } else {
                    p
                };
                if dstart > n {
                    return None;
                }
                match parse_digits(s, dstart) {
                    Some((v, p1)) => {
                        if v > 2_147_483_648u64 {
                            return None;
                        }
                        if !negative && v > 2_147_483_647u64 {
                            return None;
                        }
                        let value: i32 = if negative {
                            (-(v as i64)) as i32
                        } else {
                            v as i32
                        };
                        values.push(value);
                        if p1 <= p {
                            return None;
                        }
                        p = p1;
                    },
                    None => {
                        return None;
                    },
                }
                if p < n && s.get_ascii(p) == crate::types::B_GREATER {
                    proof {
                        assert(spec_read_i32_elems(s@, p_entry, values_entry) == Some(
                            (values@, p as int + 1),
                        ));
                    }
                    let elems = ctx.intern_i32_list(values);
                    let ghost mid = *ctx;
                    let a = ctx.intern_attr(AttrData::DenseI32 { elems });
                    proof {
                        lemma_grew_interned_trans(ctx, &mid, old(ctx));
                    }
                    return Some((a, p + 1));
                }
                match expect_lit(s, p, ", ") {
                    Some(p1) => {
                        if p1 <= p {
                            return None;
                        }
                        proof {
                            assert(spec_read_i32_elems(s@, p_entry, values_entry)
                                == spec_read_i32_elems(s@, p1 as int, values@));
                        }
                        p = p1;
                    },
                    None => {
                        return None;
                    },
                }
            }
        },
        None => {},
    }
    None
}

/// Reads a dense string tensor attribute `dense<[...]> : type`: the
/// outcome is exactly what the dense-strings grammar
/// [`spec_parse_dense`] says of the text.
#[verifier::rlimit(100)]
#[verifier::spinoff_prover]
pub fn parse_dense_attr(ctx: &mut Context, s: &str, pos: usize) -> (r: Option<
    (AttributeRef, usize),
>)
    requires
        old(ctx).wf(),
        s.is_ascii(),
        pos <= s@.len(),
    ensures
        final(ctx).wf(),
        final(ctx).grew_interned_only(old(ctx)),
        match r {
            Some(a_p) => a_p.0.valid(final(ctx)) && pos <= a_p.1 <= s@.len() && (spec_parse_dense(
                s@,
                pos as int,
                old(ctx).allow_unregistered,
            ) matches Some(q) && q.1 == a_p.1 as int && attr_term_denotes(final(ctx), a_p.0, q.0)),
            None => spec_parse_dense(s@, pos as int, old(ctx).allow_unregistered) is None,
        },
{
    proof {
        lemma_grew_interned_refl(ctx);
    }
    let ghost allow0 = old(ctx).allow_unregistered;
    let ghost sp = spec_parse_dense(s@, pos as int, allow0);
    let n = s.unicode_len();
    let p0 = match expect_lit(s, pos, "dense<[") {
        Some(p) => p,
        None => {
            return None;
        },
    };
    let mut ids: Vec<usize> = Vec::new();
    let ghost mut accg: Seq<Seq<char>> = Seq::empty();
    let mut p: usize = p0;
    if p < n && s.get_ascii(p) == B_RBRACKET {
        p = p + 1;
    } else {
        loop
            invariant_except_break
                spec_read_str_elems(s@, p0 as int, Seq::empty()) == spec_read_str_elems(
                    s@,
                    p as int,
                    accg,
                ),
            invariant
                old(ctx).wf(),
                ctx.wf(),
                ctx.grew_interned_only(old(ctx)),
                s.is_ascii(),
                n == s@.len(),
                pos <= p <= n,
                allow0 == old(ctx).allow_unregistered,
                sp == spec_parse_dense(s@, pos as int, allow0),
                spec_expect_lit(s@, pos as int, "dense<["@) == Some(p0 as int),
                !(p0 < s@.len() && s@[p0 as int] as u8 == B_RBRACKET),
                ids@.len() == accg.len(),
                forall|m: int|
                    0 <= m < ids@.len() ==> #[trigger] ids@[m] < ctx.idents@.len() && views(
                        ctx.idents@,
                    )[ids@[m] as int] == accg[m],
            ensures
                old(ctx).wf(),
                ctx.wf(),
                ctx.grew_interned_only(old(ctx)),
                s.is_ascii(),
                n == s@.len(),
                pos <= p <= n,
                allow0 == old(ctx).allow_unregistered,
                sp == spec_parse_dense(s@, pos as int, allow0),
                spec_expect_lit(s@, pos as int, "dense<["@) == Some(p0 as int),
                !(p0 < s@.len() && s@[p0 as int] as u8 == B_RBRACKET),
                ids@.len() == accg.len(),
                forall|m: int|
                    0 <= m < ids@.len() ==> #[trigger] ids@[m] < ctx.idents@.len() && views(
                        ctx.idents@,
                    )[ids@[m] as int] == accg[m],
                spec_read_str_elems(s@, p0 as int, Seq::empty()) == Some((accg, p as int)),
            decreases n - p,
        {
            let ghost p_entry = p as int;
            let ghost acc_entry = accg;
            match parse_quoted(s, p) {
                Some((b, e)) => {
                    let body = s.substring_ascii(b, e);
                    let ghost before = *ctx;
                    let ident = ctx.intern_ident(body);
                    proof {
                        lemma_grew_idents_implies_interned(ctx, &before);
                        lemma_grew_interned_trans(ctx, &before, old(ctx));
                        accg = accg.push(body@);
                    }
                    ids.push(ident.id);
                    p = e + 1;
                },
                None => {
                    return None;
                },
            }
            if p < n && s.get_ascii(p) == B_RBRACKET {
                proof {
                    assert(spec_read_str_elems(s@, p_entry, acc_entry) == Some(
                        (accg, p as int + 1),
                    ));
                }
                p = p + 1;
                break;
            }
            match expect_lit(s, p, ", ") {
                Some(p1) => {
                    if p1 <= p {
                        return None;
                    }
                    proof {
                        assert(spec_read_str_elems(s@, p_entry, acc_entry) == spec_read_str_elems(
                            s@,
                            p1 as int,
                            accg,
                        ));
                    }
                    p = p1;
                },
                None => {
                    return None;
                },
            }
        }
    }
    let ghost body_outcome = if p0 < s@.len() && s@[p0 as int] as u8 == B_RBRACKET {
        Some((Seq::<Seq<char>>::empty(), p0 as int + 1))
    } else {
        spec_read_str_elems(s@, p0 as int, Seq::empty())
    };
    proof {
        assert(body_outcome == Some((accg, p as int)));
    }
    let p2 = match expect_lit(s, p, "> : ") {
        Some(p2) => p2,
        None => {
            return None;
        },
    };
    let ghost mid0 = *ctx;
    match parse_type_at(ctx, s, p2) {
        Some((ty, p3)) => {
            let ghost tyterm = crate::types::spec_parse_type(s@, p2 as int, allow0)->Some_0.0;
            let ghost ct = *ctx;
            proof {
                lemma_grew_interned_trans(ctx, &mid0, old(ctx));
            }
            let elems = ctx.intern_str_list(ids);
            let ghost mid = *ctx;
            proof {
                crate::types::lemma_term_denotes_monotone(&ct, &mid, ty, tyterm);
            }
            let a = ctx.intern_attr(AttrData::DenseStrings { elems, ty });
            proof {
                lemma_grew_interned_trans(ctx, &mid, old(ctx));
                crate::types::lemma_term_denotes_monotone(&mid, ctx, ty, tyterm);
                assert(sp matches Some(q) && q.1 == p3 as int && q.0 == (
                AttrTerm::DenseStringsATerm { elems: accg, ty: tyterm }));
                assert(attr_term_denotes(ctx, a, AttrTerm::DenseStringsATerm {
                    elems: accg,
                    ty: tyterm,
                }));
            }
            Some((a, p3))
        },
        None => {
            proof {
                lemma_grew_interned_trans(ctx, &mid0, old(ctx));
            }
            None
        },
    }
}

impl AttributeRef {
    /// Attempts to parse an attribute from the provided string; absence
    /// exactly when the ASCII text is not a complete well-formed
    /// attribute of the grammar [`spec_parse_attr`], never a failure.
    /// A returned handle stands for exactly the term the text denotes,
    /// so two parses of one text yield equal handles and parses of
    /// texts denoting distinct attributes yield unequal ones.
    pub fn parse(ctx: &mut Context, attribute: &str) -> (r: Option<AttributeRef>)
        requires
            old(ctx).wf(),
        ensures
            final(ctx).wf(),
            final(ctx).grew_interned_only(old(ctx)),
            !vstd::string::is_ascii(attribute) ==> r is None,
            vstd::string::is_ascii(attribute) ==> ((r is Some) <==> (spec_parse_attr(
                attribute@,
                0,
                old(ctx).allow_unregistered,
            ) matches Some(q) && q.1 == attribute@.len())),
            match r {
                Some(a) => a.valid(final(ctx)) && (spec_parse_attr(
                    attribute@,
                    0,
                    old(ctx).allow_unregistered,
                ) matches Some(q) && q.1 == attribute@.len() && attr_term_denotes(
                    final(ctx),
                    a,
                    q.0,
                )),
                None => true,
            },
    {
        proof {
            lemma_grew_interned_refl(ctx);
        }
        if !attribute.is_ascii() {
            return None;
        }
        let n = attribute.unicode_len();
        match parse_attr_at(ctx, attribute, 0) {
            Some((a, p)) => {
                if p == n {
                    Some(a)
                } else {
                    None
                }
            },
            None => None,
        }
    }
}


impl BoolAttributeRef {
    /// Whether this handle points at a boolean attribute of `ctx`: an
    /// integer attribute whose type is the width-one signless integer.
    pub open spec fn valid(&self, ctx: &Context) -> bool {
        self.id < ctx.attrs@.len() && (ctx.attrs@[self.id as int] matches AttrData::IntegerAttr {
            value,
            ty,
        } && is_bool_type(ctx, ty))
    }

    /// Constructs (interns) a boolean attribute with the provided value.
    pub fn new(ctx: &mut Context, value: bool) -> (r: BoolAttributeRef)
        requires
            old(ctx).wf(),
        ensures
            final(ctx).wf(),
            final(ctx).grew_interned_only(old(ctx)),
            r.valid(final(ctx)),
            (final(ctx).attrs@[r.id as int]->IntegerAttr_value != 0) == value,
    {
        let one = ctx.intern_type(TypeData::Integer { signedness: Signedness::Signless, width: 1 });
        let ghost mid = *ctx;
        let v: i64 = if value {
            1
        } else {
            0
        };
        let a = ctx.intern_attr(AttrData::IntegerAttr { value: v, ty: one });
        proof {
            lemma_grew_interned_trans(ctx, &mid, old(ctx));
        }
        BoolAttributeRef { id: a.id }
    }

    /// Returns the boolean value held by the attribute.
    pub fn value(&self, ctx: &Context) -> (r: bool)
        requires
            self.valid(ctx),
        ensures
            r == (ctx.attrs@[self.id as int]->IntegerAttr_value != 0),
    {
        match ctx.attrs[self.id] {
            AttrData::IntegerAttr { value, .. } => value != 0,
            _ => false,
        }
    }

    /// Downcasts an erased attribute to a boolean attribute.
    pub fn try_from_attribute(ctx: &Context, attr: AttributeRef) -> (r: Option<BoolAttributeRef>)
        requires
            attr.valid(ctx),
        ensures
            match r {
                Some(b) => b.id == attr.id && b.valid(ctx),
                None => !(BoolAttributeRef { id: attr.id }).valid(ctx),
            },
    {
        match ctx.attrs[attr.id] {
            AttrData::IntegerAttr { ty, .. } => {
                if ty.id < ctx.types.len() {
                    match ctx.types[ty.id] {
                        TypeData::Integer { signedness, width } => match signedness {
                            Signedness::Signless => {
                                if width == 1 {
                                    Some(BoolAttributeRef { id: attr.id })
                                } else {
                                    None
                                }
                            },
                            _ => None,
                        },
                        _ => None,
                    }
                } else {
                    None
                }
            },
            _ => None,
        }
    }

    /// Returns the erased attribute this boolean attribute is.
    pub fn as_attribute(&self) -> (r: AttributeRef)
        ensures
            r.id == self.id,
    {
        AttributeRef { id: self.id }
    }
}

impl IntegerAttributeRef {
    /// Whether this handle points at an integer attribute of `ctx`.
    pub open spec fn valid(&self, ctx: &Context) -> bool {
        self.id < ctx.attrs@.len() && ctx.attrs@[self.id as int] is IntegerAttr
    }

    /// Constructs (interns) an integer attribute of the given integer
    /// type holding `value`.
    pub fn new(ctx: &mut Context, ty: crate::types::IntegerTypeRef, value: i64) -> (r:
        IntegerAttributeRef)
        requires
            old(ctx).wf(),
            ty.valid(old(ctx)),
        ensures
            final(ctx).wf(),
            final(ctx).grew_interned_only(old(ctx)),
            r.valid(final(ctx)),
            final(ctx).attrs@[r.id as int] == (AttrData::IntegerAttr {
                value,
                ty: TypeRef { id: ty.id },
            }),
    {
        let a = ctx.intern_attr(AttrData::IntegerAttr { value, ty: TypeRef { id: ty.id } });
        IntegerAttributeRef { id: a.id }
    }

    /// Returns the value held by the attribute as a signed integer.
    pub fn value_signed(&self, ctx: &Context) -> (r: i64)
        requires
            self.valid(ctx),
        ensures
            r == ctx.attrs@[self.id as int]->IntegerAttr_value,
    {
        match ctx.attrs[self.id] {
            AttrData::IntegerAttr { value, .. } => value,
            _ => 0,
        }
    }

    /// Returns the value held by the attribute reinterpreted as an
    /// unsigned integer.
    pub fn value_unsigned(&self, ctx: &Context) -> (r: u64)
        requires
            self.valid(ctx),
        ensures
            r == ctx.attrs@[self.id as int]->IntegerAttr_value as u64,
    {
        let v = self.value_signed(ctx);
        v as u64
    }

    /// Downcasts an erased attribute to an integer attribute.
    pub fn try_from_attribute(ctx: &Context, attr: AttributeRef) -> (r: Option<
        IntegerAttributeRef,
    >)
        requires
            attr.valid(ctx),
        ensures
            match r {
                Some(i) => i.id == attr.id && i.valid(ctx),
                None => !(ctx.attrs@[attr.id as int] is IntegerAttr),
            },
    {
        match ctx.attrs[attr.id] {
            AttrData::IntegerAttr { .. } => Some(IntegerAttributeRef { id: attr.id }),
            _ => None,
        }
    }

    /// Returns the erased attribute this integer attribute is.
    pub fn as_attribute(&self) -> (r: AttributeRef)
        ensures
            r.id == self.id,
    {
        AttributeRef { id: self.id }
    }
}

impl FloatAttributeRef {
    /// Whether this handle points at a float attribute of `ctx`.
    pub open spec fn valid(&self, ctx: &Context) -> bool {
        self.id < ctx.attrs@.len() && ctx.attrs@[self.id as int] is FloatAttr
    }

    /// Downcasts an erased attribute to a float attribute.
    pub fn try_from_attribute(ctx: &Context, attr: AttributeRef) -> (r: Option<FloatAttributeRef>)
        requires
            attr.valid(ctx),
        ensures
            match r {
                Some(f) => f.id == attr.id && f.valid(ctx),
                None => !(ctx.attrs@[attr.id as int] is FloatAttr),
            },
    {
        match ctx.attrs[attr.id] {
            AttrData::FloatAttr { .. } => Some(FloatAttributeRef { id: attr.id }),
            _ => None,
        }
    }

    /// Returns the erased attribute this float attribute is.
    pub fn as_attribute(&self) -> (r: AttributeRef)
        ensures
            r.id == self.id,
    {
        AttributeRef { id: self.id }
    }

    /// Returns the textual form of the value held by the attribute.  The
    /// numeric value itself never crosses this layer.
    pub fn value_text(&self, ctx: &Context) -> (r: String)
        requires
            ctx.wf(),
            self.valid(ctx),
        ensures
            r@ == views(ctx.idents@)[ctx.attrs@[self.id as int]->FloatAttr_text as int],
    {
        proof {
            assert(ctx.attr_entry_wf(ctx.attrs@[self.id as int]));
        }
        match ctx.attrs[self.id] {
            AttrData::FloatAttr { text, .. } => ctx.idents[text].clone(),
            _ => String::new(),
        }
    }
}

impl StringAttributeRef {
    /// Whether this handle points at a string attribute of `ctx`.
    pub open spec fn valid(&self, ctx: &Context) -> bool {
        self.id < ctx.attrs@.len() && ctx.attrs@[self.id as int] is StringAttr
    }

    /// The character sequence the attribute holds.
    pub open spec fn chars(&self, ctx: &Context) -> Seq<char> {
        views(ctx.idents@)[ctx.attrs@[self.id as int]->StringAttr_value as int]
    }

    /// Constructs (interns) a string attribute with the provided value.
    pub fn new(ctx: &mut Context, value: &str) -> (r: StringAttributeRef)
        requires
            old(ctx).wf(),
        ensures
            final(ctx).wf(),
            final(ctx).grew_interned_only(old(ctx)),
            r.valid(final(ctx)),
            r.chars(final(ctx)) == value@,
    {
        let ident = ctx.intern_ident(value);
        let ghost mid = *ctx;
        proof {
            lemma_grew_idents_implies_interned(&mid, old(ctx));
        }
        let a = ctx.intern_attr(AttrData::StringAttr { value: ident.id });
        proof {
            lemma_grew_interned_trans(ctx, &mid, old(ctx));
        }
        StringAttributeRef { id: a.id }
    }

    /// Returns the string value held by the attribute.
    pub fn value(&self, ctx: &Context) -> (r: String)
        requires
            ctx.wf(),
            self.valid(ctx),
        ensures
            r@ == self.chars(ctx),
    {
        proof {
            assert(ctx.attr_entry_wf(ctx.attrs@[self.id as int]));
        }
        match ctx.attrs[self.id] {
            AttrData::StringAttr { value } => ctx.idents[value].clone(),
            _ => String::new(),
        }
    }

    /// Downcasts an erased attribute to a string attribute.
    pub fn try_from_attribute(ctx: &Context, attr: AttributeRef) -> (r: Option<StringAttributeRef>)
        requires
            attr.valid(ctx),
        ensures
            match r {
                Some(sa) => sa.id == attr.id && sa.valid(ctx),
                None => !(ctx.attrs@[attr.id as int] is StringAttr),
            },
    {
        match ctx.attrs[attr.id] {
            AttrData::StringAttr { .. } => Some(StringAttributeRef { id: attr.id }),
            _ => None,
        }
    }

    /// Returns the erased attribute this string attribute is.
    pub fn as_attribute(&self) -> (r: AttributeRef)
        ensures
            r.id == self.id,
    {
        AttributeRef { id: self.id }
    }
}

impl DenseBoolAttributeRef {
    /// Whether this handle points at a dense boolean array of `ctx`.
    pub open spec fn valid(&self, ctx: &Context) -> bool {
        self.id < ctx.attrs@.len() && ctx.attrs@[self.id as int] is DenseBool
    }

    /// The elements the attribute holds.
    pub open spec fn elems(&self, ctx: &Context) -> Seq<bool> {
        views(ctx.bool_lists@)[ctx.attrs@[self.id as int]->DenseBool_elems as int]
    }

    /// Constructs (interns) a dense array of booleans.
    pub fn new(ctx: &mut Context, values: &[bool]) -> (r: DenseBoolAttributeRef)
        requires
            old(ctx).wf(),
        ensures
            final(ctx).wf(),
            final(ctx).grew_interned_only(old(ctx)),
            r.valid(final(ctx)),
            r.elems(final(ctx)) == values@,
    {
        let v = vstd::slice::slice_to_vec(values);
        let elems = ctx.intern_bool_list(v);
        let ghost mid = *ctx;
        let a = ctx.intern_attr(AttrData::DenseBool { elems });
        proof {
            lemma_grew_interned_trans(ctx, &mid, old(ctx));
        }
        DenseBoolAttributeRef { id: a.id }
    }

    /// Returns the length of the array.
    pub fn len(&self, ctx: &Context) -> (r: usize)
        requires
            ctx.wf(),
            self.valid(ctx),
        ensures
            r == self.elems(ctx).len(),
    {
        proof {
            assert(ctx.attr_entry_wf(ctx.attrs@[self.id as int]));
        }
        match ctx.attrs[self.id] {
            AttrData::DenseBool { elems } => ctx.bool_lists[elems].len(),
            _ => 0,
        }
    }

    /// Returns whether the array is empty.
    pub fn is_empty(&self, ctx: &Context) -> (r: bool)
        requires
            ctx.wf(),
            self.valid(ctx),
        ensures
            r == (self.elems(ctx).len() == 0),
    {
        self.len(ctx) == 0
    }

    /// Gets the element at the provided index; the index must be within
    /// bounds.
    pub fn get(&self, ctx: &Context, index: usize) -> (r: bool)
        requires
            ctx.wf(),
            self.valid(ctx),
            index < self.elems(ctx).len(),
        ensures
            r == self.elems(ctx)[index as int],
    {
        proof {
            assert(ctx.attr_entry_wf(ctx.attrs@[self.id as int]));
        }
        match ctx.attrs[self.id] {
            AttrData::DenseBool { elems } => ctx.bool_lists[elems][index],
            _ => false,
        }
    }

    /// Downcasts an erased attribute to a dense boolean array.
    pub fn try_from_attribute(ctx: &Context, attr: AttributeRef) -> (r: Option<
        DenseBoolAttributeRef,
    >)
        requires
            attr.valid(ctx),
        ensures
            match r {
                Some(d) => d.id == attr.id && d.valid(ctx),
                None => !(ctx.attrs@[attr.id as int] is DenseBool),
            },
    {
        match ctx.attrs[attr.id] {
            AttrData::DenseBool { .. } => Some(DenseBoolAttributeRef { id: attr.id }),
            _ => None,
        }
    }

    /// Returns the erased attribute this dense array is.
    pub fn as_attribute(&self) -> (r: AttributeRef)
        ensures
            r.id == self.id,
    {
        AttributeRef { id: self.id }
    }
}

impl DenseI32AttributeRef {
    /// Whether this handle points at a dense 32-bit integer array of
    /// `ctx`.
    pub open spec fn valid(&self, ctx: &Context) -> bool {
        self.id < ctx.attrs@.len() && ctx.attrs@[self.id as int] is DenseI32
    }

    /// The elements the attribute holds.
    pub open spec fn elems(&self, ctx: &Context) -> Seq<i32> {
        views(ctx.i32_lists@)[ctx.attrs@[self.id as int]->DenseI32_elems as int]
    }

    /// Constructs (interns) a dense array of 32-bit integers.
    pub fn new(ctx: &mut Context, values: &[i32]) -> (r: DenseI32AttributeRef)
        requires
            old(ctx).wf(),
        ensures
            final(ctx).wf(),
            final(ctx).grew_interned_only(old(ctx)),
            r.valid(final(ctx)),
            r.elems(final(ctx)) == values@,
    {
        let v = vstd::slice::slice_to_vec(values);
        let elems = ctx.intern_i32_list(v);
        let ghost mid = *ctx;
        let a = ctx.intern_attr(AttrData::DenseI32 { elems });
        proof {
            lemma_grew_interned_trans(ctx, &mid, old(ctx));
        }
        DenseI32AttributeRef { id: a.id }
    }

    /// Returns the length of the array.
    pub fn len(&self, ctx: &Context) -> (r: usize)
        requires
            ctx.wf(),
            self.valid(ctx),
        ensures
            r == self.elems(ctx).len(),
    {
        proof {
            assert(ctx.attr_entry_wf(ctx.attrs@[self.id as int]));
        }
        match ctx.attrs[self.id] {
            AttrData::DenseI32 { elems } => ctx.i32_lists[elems].len(),
            _ => 0,
        }
    }

    /// Returns whether the array is empty.
    pub fn is_empty(&self, ctx: &Context) -> (r: bool)
        requires
            ctx.wf(),
            self.valid(ctx),
        ensures
            r == (self.elems(ctx).len() == 0),
    {
        self.len(ctx) == 0
    }

    /// Gets the element at the provided index; the index must be within
    /// bounds.
    pub fn get(&self, ctx: &Context, index: usize) -> (r: i32)
        requires
            ctx.wf(),
            self.valid(ctx),
            index < self.elems(ctx).len(),
        ensures
            r == self.elems(ctx)[index as int],
    {
        proof {
            assert(ctx.attr_entry_wf(ctx.attrs@[self.id as int]));
        }
        match ctx.attrs[self.id] {
            AttrData::DenseI32 { elems } => ctx.i32_lists[elems][index],
            _ => 0,
        }
    }

    /// Downcasts an erased attribute to a dense 32-bit integer array.
    pub fn try_from_attribute(ctx: &Context, attr: AttributeRef) -> (r: Option<
        DenseI32AttributeRef,
    >)
        requires
            attr.valid(ctx),
        ensures
            match r {
                Some(d) => d.id == attr.id && d.valid(ctx),
                None => !(ctx.attrs@[attr.id as int] is DenseI32),
            },
    {
        match ctx.attrs[attr.id] {
            AttrData::DenseI32 { .. } => Some(DenseI32AttributeRef { id: attr.id }),
            _ => None,
        }
    }

    /// Returns the erased attribute this dense array is.
    pub fn as_attribute(&self) -> (r: AttributeRef)
        ensures
            r.id == self.id,
    {
        AttributeRef { id: self.id }
    }
}

impl DenseStringAttributeRef {
    /// Whether this handle points at a dense string tensor of `ctx`.
    pub open spec fn valid(&self, ctx: &Context) -> bool {
        self.id < ctx.attrs@.len() && ctx.attrs@[self.id as int] is DenseStrings
    }

    /// The elements the attribute holds, as character sequences.
    pub open spec fn elems(&self, ctx: &Context) -> Seq<Seq<char>> {
        views(ctx.str_lists@)[ctx.attrs@[self.id as int]->DenseStrings_elems as int].map(
            |m: int, id: usize| views(ctx.idents@)[id as int],
        )
    }

    /// Constructs (interns) a dense tensor of strings whose elements have
    /// the provided string type.
    pub fn new(ctx: &mut Context, values: &Vec<String>, string_type: TypeRef) -> (r:
        DenseStringAttributeRef)
        requires
            old(ctx).wf(),
            string_type.valid(old(ctx)),
        ensures
            final(ctx).wf(),
            final(ctx).grew_interned_only(old(ctx)),
            r.valid(final(ctx)),
            r.elems(final(ctx)).len() == values@.len(),
            forall|m: int|
                0 <= m < values@.len() ==> r.elems(final(ctx))[m] == values@[m]@,
            final(ctx).types@[final(ctx).attrs@[r.id as int]->DenseStrings_ty.id as int] == (
            TypeData::Tensor { dim: values@.len() as u64, elem: string_type }),
    {
        let ghost c0 = *old(ctx);
        let mut ids: Vec<usize> = Vec::new();
        let mut i: usize = 0;
        proof {
            lemma_grew_interned_refl(ctx);
        }
        while i < values.len()
            invariant
                c0.wf(),
                ctx.wf(),
                ctx.grew_interned_only(&c0),
                i <= values@.len(),
                ids@.len() == i,
                forall|m: int|
                    0 <= m < i ==> ids@[m] < ctx.idents@.len() && views(ctx.idents@)[ids@[m] as int]
                        == values@[m]@,
            decreases values@.len() - i,
        {
            let ghost before = *ctx;
            let ident = ctx.intern_ident(values[i].as_str());
            proof {
                lemma_grew_idents_implies_interned(ctx, &before);
                lemma_grew_interned_trans(ctx, &before, &c0);
            }
            ids.push(ident.id);
            i = i + 1;
        }
        let dim = ids.len() as u64;
        let ghost mid0 = *ctx;
        let tensor = ctx.intern_type(TypeData::Tensor { dim, elem: string_type });
        let ghost mid1 = *ctx;
        let elems = ctx.intern_str_list(ids);
        let ghost mid2 = *ctx;
        let a = ctx.intern_attr(AttrData::DenseStrings { elems, ty: tensor });
        proof {
            lemma_grew_interned_trans(&mid1, &mid0, &c0);
            lemma_grew_interned_trans(&mid2, &mid1, &c0);
            lemma_grew_interned_trans(ctx, &mid2, &c0);
            assert(r_elems_match(ctx, a.id as int, values@));
        }
        DenseStringAttributeRef { id: a.id }
    }

    /// Returns the length of the array.
    pub fn len(&self, ctx: &Context) -> (r: usize)
        requires
            ctx.wf(),
            self.valid(ctx),
        ensures
            r == self.elems(ctx).len(),
    {
        proof {
            assert(ctx.attr_entry_wf(ctx.attrs@[self.id as int]));
        }
        match ctx.attrs[self.id] {
            AttrData::DenseStrings { elems, .. } => ctx.str_lists[elems].len(),
            _ => 0,
        }
    }

    /// Returns whether the array is empty.
    pub fn is_empty(&self, ctx: &Context) -> (r: bool)
        requires
            ctx.wf(),
            self.valid(ctx),
        ensures
            r == (self.elems(ctx).len() == 0),
    {
        self.len(ctx) == 0
    }

    /// Gets the element at the provided index; the index must be within
    /// bounds.
    pub fn get(&self, ctx: &Context, index: usize) -> (r: String)
        requires
            ctx.wf(),
            self.valid(ctx),
            index < self.elems(ctx).len(),
        ensures
            r@ == self.elems(ctx)[index as int],
    {
        proof {
            assert(ctx.attr_entry_wf(ctx.attrs@[self.id as int]));
        }
        match ctx.attrs[self.id] {
            AttrData::DenseStrings { elems, .. } => {
                let id = ctx.str_lists[elems][index];
                ctx.idents[id].clone()
            },
            _ => String::new(),
        }
    }

    /// Downcasts an erased attribute to a dense string tensor.
    pub fn try_from_attribute(ctx: &Context, attr: AttributeRef) -> (r: Option<
        DenseStringAttributeRef,
    >)
        requires
            attr.valid(ctx),
        ensures
            match r {
                Some(d) => d.id == attr.id && d.valid(ctx),
                None => !(ctx.attrs@[attr.id as int] is DenseStrings),
            },
    {
        match ctx.attrs[attr.id] {
            AttrData::DenseStrings { .. } => Some(DenseStringAttributeRef { id: attr.id }),
            _ => None,
        }
    }

    /// Returns the erased attribute this dense tensor is.
    pub fn as_attribute(&self) -> (r: AttributeRef)
        ensures
            r.id == self.id,
    {
        AttributeRef { id: self.id }
    }
}

/// Whether the dense string attribute at `i` holds exactly the views of
/// `values`.
pub open spec fn r_elems_match(ctx: &Context, i: int, values: Seq<String>) -> bool {
    let d = (DenseStringAttributeRef { id: i as usize });
    d.elems(ctx).len() == values.len() && (forall|m: int|
        0 <= m < values.len() ==> d.elems(ctx)[m] == values[m]@)
}

impl DenseElementsAttributeRef {
    /// Whether this handle points at a dense-elements attribute of `ctx`.
    pub open spec fn valid(&self, ctx: &Context) -> bool {
        self.id < ctx.attrs@.len() && ctx.attrs@[self.id as int] is DenseStrings
    }

    /// Constructs (interns) a dense tensor of strings with the provided
    /// element type.
    pub fn new_strings(ctx: &mut Context, ty: TypeRef, values: &Vec<String>) -> (r:
        DenseElementsAttributeRef)
        requires
            old(ctx).wf(),
            ty.valid(old(ctx)),
        ensures
            final(ctx).wf(),
            final(ctx).grew_interned_only(old(ctx)),
            r.valid(final(ctx)),
            (DenseStringAttributeRef { id: r.id }).elems(final(ctx)).len() == values@.len(),
            forall|m: int|
                0 <= m < values@.len() ==> (DenseStringAttributeRef { id: r.id }).elems(
                    final(ctx),
                )[m] == values@[m]@,
            final(ctx).types@[final(ctx).attrs@[r.id as int]->DenseStrings_ty.id as int] == (
            TypeData::Tensor { dim: values@.len() as u64, elem: ty }),
    {
        let d = DenseStringAttributeRef::new(ctx, values, ty);
        DenseElementsAttributeRef { id: d.id }
    }

    /// Downcasts an erased attribute to a dense-elements attribute.
    pub fn try_from_attribute(ctx: &Context, attr: AttributeRef) -> (r: Option<
        DenseElementsAttributeRef,
    >)
        requires
            attr.valid(ctx),
        ensures
            match r {
                Some(d) => d.id == attr.id && d.valid(ctx),
                None => !(ctx.attrs@[attr.id as int] is DenseStrings),
            },
    {
        match ctx.attrs[attr.id] {
            AttrData::DenseStrings { .. } => Some(DenseElementsAttributeRef { id: attr.id }),
            _ => None,
        }
    }

    /// Returns the erased attribute this dense-elements attribute is.
    pub fn as_attribute(&self) -> (r: AttributeRef)
        ensures
            r.id == self.id,
    {
        AttributeRef { id: self.id }
    }
}

} // verus!
