//! Types interned in a context: the erased [`TypeRef`] handle, the interned
//! representation [`TypeData`], and the concrete variants reached by
//! fallible downcasts.

use vstd::prelude::*;
use crate::context::Context;
use crate::context::find_name;
use crate::context::lemma_name_in_index;
use crate::context::name_in;
use crate::context::views;
use crate::dialect::DialectRef;
use crate::text::append_dec_u64;
use crate::text::dec_digits;
use vstd::string::StrSliceExecFns;

verus! {

broadcast use vstd::string::is_ascii_spec_bytes;

/// Signedness of an integer type.
#[derive(Clone, Copy, Debug, PartialEq, Eq, Structural)]
pub enum Signedness {
    Signless,
    Signed,
    Unsigned,
}

/// Width class of a floating-point type.  Only the type is modeled; no
/// floating-point value ever crosses this layer.
#[derive(Clone, Copy, Debug, PartialEq, Eq, Structural)]
pub enum FloatKind {
    F16,
    BF16,
    F32,
    F64,
}

/// The interned representation of a type.  Entries referring to other
/// entries (`Tensor`) always point at strictly earlier indices, and text
/// payloads are identifier-table indices, so equal types are equal values.
#[derive(Clone, Copy, Debug, PartialEq, Eq, Structural)]
pub enum TypeData {
    /// An n-bit integer type such as `i32`, `si8` or `ui16`.
    Integer { signedness: Signedness, width: u32 },
    /// A floating-point type such as `f32`.
    Float { kind: FloatKind },
    /// The platform-sized `index` type.
    Index,
    /// The `none` unit type.
    NoneType,
    /// An unregistered dialect type `!dialect.body`; `text` indexes the
    /// identifier table and holds `dialect.body` without the `!`.
    Opaque { text: usize },
    /// A rank-one ranked tensor `tensor<dim x elem>`.
    Tensor { dim: u64, elem: TypeRef },
}

/// A reference to a type interned in a context.  Copyable; never
/// separately destroyed; valid exactly as long as its context.
#[derive(Clone, Copy, Debug, PartialEq, Eq, Structural)]
pub struct TypeRef {
    pub id: usize,
}

impl TypeRef {
    /// Whether this handle points into the type table of `ctx`.
    pub open spec fn valid(&self, ctx: &Context) -> bool {
        self.id < ctx.types@.len()
    }

    /// The interned data this handle stands for.
    pub open spec fn data(&self, ctx: &Context) -> TypeData {
        ctx.types@[self.id as int]
    }
}

/// The canonical printed form of the type at table index `i`.
pub open spec fn spec_type_text(types: Seq<TypeData>, idents: Seq<Seq<char>>, i: int) -> Seq<char>
    decreases i,
{
    if 0 <= i < types.len() {
        match types[i] {
            TypeData::Integer { signedness, width } => (match signedness {
                Signedness::Signless => "i"@,
                Signedness::Signed => "si"@,
                Signedness::Unsigned => "ui"@,
            }) + dec_digits(width as nat),
            TypeData::Float { kind } => match kind {
                FloatKind::F16 => "f16"@,
                FloatKind::BF16 => "bf16"@,
                FloatKind::F32 => "f32"@,
                FloatKind::F64 => "f64"@,
            },
            TypeData::Index => "index"@,
            TypeData::NoneType => "none"@,
            TypeData::Opaque { text } => "!"@ + if 0 <= text < idents.len() {
                idents[text as int]
            } else {
                Seq::empty()
            },
            TypeData::Tensor { dim, elem } => "tensor<"@ + dec_digits(dim as nat) + "x"@ + (if (
            elem.id as int) < i {
                spec_type_text(types, idents, elem.id as int)
            } else {
                Seq::empty()
            }) + ">"@,
        }
    } else {
        Seq::empty()
    }
}

/// Appends the canonical printed form of `t` to `out`.
pub fn append_type_text(ctx: &Context, t: TypeRef, out: &mut String)
    requires
        ctx.wf(),
        t.valid(ctx),
    ensures
        final(out)@ == old(out)@ + spec_type_text(ctx.types@, views(ctx.idents@), t.id as int),
    decreases t.id,
{
    let ghost goal = spec_type_text(ctx.types@, views(ctx.idents@), t.id as int);
    match ctx.types[t.id] {
        TypeData::Integer { signedness, width } => {
            match signedness {
                Signedness::Signless => out.append("i"),
                Signedness::Signed => out.append("si"),
                Signedness::Unsigned => out.append("ui"),
            }
            append_dec_u64(out, width as u64);
            proof {
                assert((*out)@ =~= old(out)@ + goal);
            }
        },
        TypeData::Float { kind } => {
            match kind {
                FloatKind::F16 => out.append("f16"),
                FloatKind::BF16 => out.append("bf16"),
                FloatKind::F32 => out.append("f32"),
                FloatKind::F64 => out.append("f64"),
            }
        },
        TypeData::Index => out.append("index"),
        TypeData::NoneType => out.append("none"),
        TypeData::Opaque { text } => {
            out.append("!");
            let body = ctx.idents[text].clone();
            out.append(body.as_str());
            proof {
                assert((*out)@ =~= old(out)@ + goal);
            }
        },
        TypeData::Tensor { dim, elem } => {
            out.append("tensor<");
            append_dec_u64(out, dim);
            out.append("x");
            append_type_text(ctx, elem, out);
            out.append(">");
            proof {
                assert((*out)@ =~= old(out)@ + goal);
            }
        },
    }
}

impl TypeRef {
    /// The canonical printed form of this type.
    pub open spec fn text(&self, ctx: &Context) -> Seq<char> {
        spec_type_text(ctx.types@, views(ctx.idents@), self.id as int)
    }

    /// Returns the canonical printed form of the type.
    pub fn to_text(&self, ctx: &Context) -> (r: String)
        requires
            ctx.wf(),
            self.valid(ctx),
        ensures
            r@ == self.text(ctx),
    {
        let mut out = String::new();
        append_type_text(ctx, *self, &mut out);
        out
    }

    /// Returns the dialect the type belongs to, if that dialect is
    /// loaded: the builtin dialect for every built-in type, the dialect
    /// named by the namespace prefix for an opaque dialect type.
    pub fn dialect(&self, ctx: &Context) -> (r: Option<DialectRef>)
        requires
            ctx.wf(),
            self.valid(ctx),
        ensures
            match r {
                Some(d) => d.valid(ctx) && d.spec_namespace(ctx) == spec_type_dialect_ns(
                    ctx,
                    *self,
                ),
                None => !name_in(views(ctx.loaded@), spec_type_dialect_ns(ctx, *self)),
            },
    {
        let ns: String = match ctx.types[self.id] {
            TypeData::Opaque { text } => {
                let body = ctx.idents[text].clone();
                let k = match crate::context::first_dot_index(body.as_str()) {
                    Some(k) => k,
                    None => body.as_str().unicode_len(),
                };
                let r = body.as_str().substring_char(0, k);
                proof {
                    assert(r@ == spec_type_dialect_ns(ctx, *self));
                }
                r.to_owned()
            },
            _ => {
                let b: String = "builtin".to_owned();
                b
            },
        };
        match find_name(&ctx.loaded, ns.as_str()) {
            Some(i) => {
                proof {
                    assert(views(ctx.loaded@)[i as int] == ns@);
                    lemma_name_in_index(views(ctx.loaded@), i as int);
                }
                Some(DialectRef { id: i })
            },
            None => None,
        }
    }
}

/// ASCII codes used by the textual format.
pub const B_DIGIT_0: u8 = 48;

pub const B_DIGIT_9: u8 = 57;

pub const B_LOWER_A: u8 = 97;

pub const B_LOWER_Z: u8 = 122;

pub const B_UPPER_A: u8 = 65;

pub const B_UPPER_Z: u8 = 90;

pub const B_UNDERSCORE: u8 = 95;

pub const B_DOT: u8 = 46;

pub const B_DOLLAR: u8 = 36;

pub const B_LOWER_I: u8 = 105;

pub const B_LOWER_S: u8 = 115;

pub const B_LOWER_U: u8 = 117;

pub const B_LOWER_F: u8 = 102;

pub const B_LOWER_B: u8 = 98;

pub const B_LOWER_D: u8 = 100;

pub const B_LOWER_N: u8 = 110;

pub const B_LOWER_T: u8 = 116;

pub const B_LOWER_X: u8 = 120;

pub const B_BANG: u8 = 33;

pub const B_GREATER: u8 = 62;

/// Whether `b` is an ASCII decimal digit.
pub fn is_digit_byte(b: u8) -> (r: bool)
    ensures
        r == (B_DIGIT_0 <= b <= B_DIGIT_9),
{
    B_DIGIT_0 <= b && b <= B_DIGIT_9
}

/// Whether `b` may occur in a dialect type body: letters, digits and the
/// punctuation the textual format admits in bare identifiers.
pub fn is_ident_byte(b: u8) -> (r: bool)
    ensures
        r == (B_LOWER_A <= b <= B_LOWER_Z || B_UPPER_A <= b <= B_UPPER_Z || B_DIGIT_0 <= b <= B_DIGIT_9 || b == B_UNDERSCORE || b == B_DOT
            || b == B_DOLLAR),
{
    (B_LOWER_A <= b && b <= B_LOWER_Z) || (B_UPPER_A <= b && b <= B_UPPER_Z) || (B_DIGIT_0 <= b && b <= B_DIGIT_9) || b == B_UNDERSCORE
        || b == B_DOT || b == B_DOLLAR
}

/// The outcome of matching the literal `lit` at position `pos` of `s`:
/// the position after it when the text carries it there.
pub open spec fn spec_expect_lit(s: Seq<char>, pos: int, lit: Seq<char>) -> Option<int> {
    if 0 <= pos && pos + lit.len() <= s.len() && s.subrange(pos, pos + lit.len()) == lit {
        Some(pos + lit.len())
    } else {
        None
    }
}

/// Matches the literal `lit` at position `pos` of `s`.
pub fn expect_lit(s: &str, pos: usize, lit: &str) -> (r: Option<usize>)
    requires
        s.is_ascii(),
        pos <= s@.len(),
    ensures
        match r {
            Some(p) => pos <= p <= s@.len() && s@.subrange(pos as int, p as int) == lit@
                && spec_expect_lit(s@, pos as int, lit@) == Some(p as int),
            None => spec_expect_lit(s@, pos as int, lit@) is None,
        },
{
    let n = lit.unicode_len();
    let sn = s.unicode_len();
    if sn - pos < n {
        return None;
    }
    let end = pos + n;
    let sub = s.substring_ascii(pos, end);
    if crate::context::str_eq(sub, lit) {
        Some(end)
    } else {
        None
    }
}

/// Whether a character is a decimal digit, compared through its byte.
pub open spec fn char_is_digit(c: char) -> bool {
    B_DIGIT_0 <= c as u8 <= B_DIGIT_9
}

/// The numeric value of a digit character.
pub open spec fn char_digit_val(c: char) -> int {
    c as u8 - B_DIGIT_0
}

/// Continues reading digits with `acc` already read; absence when the
/// number grows too large.
pub open spec fn spec_digits_from(s: Seq<char>, pos: int, acc: int) -> Option<(int, int)>
    decreases s.len() - pos,
{
    if 0 <= pos < s.len() && char_is_digit(s[pos]) {
        if acc > 99_999_999_999_999 {
            None
        } else {
            spec_digits_from(s, pos + 1, acc * 10 + char_digit_val(s[pos]))
        }
    } else {
        Some((acc, pos))
    }
}

/// The outcome of reading a decimal number at position `pos` of `s`.
pub open spec fn spec_digits(s: Seq<char>, pos: int) -> Option<(int, int)> {
    if 0 <= pos < s.len() && char_is_digit(s[pos]) {
        spec_digits_from(s, pos + 1, char_digit_val(s[pos]))
    } else {
        None
    }
}

/// A successful digit read ends past where it started.
pub proof fn lemma_spec_digits_from_pos(s: Seq<char>, pos: int, acc: int)
    ensures
        spec_digits_from(s, pos, acc) matches Some(q) ==> q.1 >= pos,
    decreases s.len() - pos,
{
    if 0 <= pos < s.len() && char_is_digit(s[pos]) && acc <= 99_999_999_999_999 {
        lemma_spec_digits_from_pos(s, pos + 1, acc * 10 + char_digit_val(s[pos]));
    }
}

/// Reads a decimal number at position `pos` of `s`; absence when no
/// digit stands there or the number is too large.
pub fn parse_digits(s: &str, pos: usize) -> (r: Option<(u64, usize)>)
    requires
        s.is_ascii(),
        pos <= s@.len(),
    ensures
        match r {
            Some(v_p) => pos < v_p.1 <= s@.len() && spec_digits(s@, pos as int) == Some(
                (v_p.0 as int, v_p.1 as int),
            ),
            None => spec_digits(s@, pos as int) is None,
        },
{
    let n = s.unicode_len();
    if pos >= n {
        return None;
    }
    let c0 = s.get_ascii(pos);
    if !is_digit_byte(c0) {
        return None;
    }
    let mut v: u64 = (c0 - B_DIGIT_0) as u64;
    let mut p: usize = pos + 1;
    while p < n && is_digit_byte(s.get_ascii(p))
        invariant
            s.is_ascii(),
            n == s@.len(),
            pos < p <= n,
            v <= 999_999_999_999_999,
            spec_digits(s@, pos as int) == spec_digits_from(s@, p as int, v as int),
        decreases n - p,
    {
        if v > 99_999_999_999_999 {
            return None;
        }
        let d = (s.get_ascii(p) - B_DIGIT_0) as u64;
        v = v * 10 + d;
        p = p + 1;
    }
    Some((v, p))
}


/// Whether a character may occur in a dialect type body, compared
/// through its byte.
pub open spec fn char_is_ident(c: char) -> bool {
    B_LOWER_A <= c as u8 <= B_LOWER_Z || B_UPPER_A <= c as u8 <= B_UPPER_Z || B_DIGIT_0 <= c as u8
        <= B_DIGIT_9 || c as u8 == B_UNDERSCORE || c as u8 == B_DOT || c as u8 == B_DOLLAR
}

/// The first position at or after `pos` that does not continue a
/// dialect type body.
pub open spec fn spec_scan_ident(s: Seq<char>, pos: int) -> int
    decreases s.len() - pos,
{
    if 0 <= pos < s.len() && char_is_ident(s[pos]) {
        spec_scan_ident(s, pos + 1)
    } else {
        pos
    }
}

/// The scan stays between its start and the end of the text.
pub proof fn lemma_spec_scan_ident_bounds(s: Seq<char>, pos: int)
    requires
        0 <= pos <= s.len(),
    ensures
        pos <= spec_scan_ident(s, pos) <= s.len(),
    decreases s.len() - pos,
{
    if pos < s.len() && char_is_ident(s[pos]) {
        lemma_spec_scan_ident_bounds(s, pos + 1);
    }
}

/// A context-free type term: what a piece of type text denotes, before
/// any interning.
pub enum TypeTerm {
    IntegerTerm { signedness: Signedness, width: u32 },
    FloatTerm { kind: FloatKind },
    IndexTerm,
    NoneTerm,
    OpaqueTerm { body: Seq<char> },
    TensorTerm { dim: u64, elem: Box<TypeTerm> },
}

/// Whether the interned type `t` stands for exactly the term `term` in
/// `ctx`.
pub open spec fn term_denotes(ctx: &Context, t: TypeRef, term: TypeTerm) -> bool
    decreases term,
{
    t.id < ctx.types@.len() && match term {
        TypeTerm::IntegerTerm { signedness, width } => ctx.types@[t.id as int]
            == (TypeData::Integer { signedness, width }),
        TypeTerm::FloatTerm { kind } => ctx.types@[t.id as int] == (TypeData::Float { kind }),
        TypeTerm::IndexTerm => ctx.types@[t.id as int] == TypeData::Index,
        TypeTerm::NoneTerm => ctx.types@[t.id as int] == TypeData::NoneType,
        TypeTerm::OpaqueTerm { body } => ctx.types@[t.id as int] matches TypeData::Opaque { text }
            && text < ctx.idents@.len() && views(ctx.idents@)[text as int] == body,
        TypeTerm::TensorTerm { dim, elem } => ctx.types@[t.id as int] matches TypeData::Tensor {
            dim: d2,
            elem: e2,
        } && d2 == dim && term_denotes(ctx, e2, *elem),
    }
}

/// Denotation survives growth of the interning tables.
pub proof fn lemma_term_denotes_monotone(c0: &Context, c1: &Context, t: TypeRef, term: TypeTerm)
    requires
        c1.grew_interned_only(c0),
        term_denotes(c0, t, term),
    ensures
        term_denotes(c1, t, term),
    decreases term,
{
    match term {
        TypeTerm::TensorTerm { dim, elem } => {
            let e2 = c0.types@[t.id as int]->Tensor_elem;
            lemma_term_denotes_monotone(c0, c1, e2, *elem);
        },
        _ => {},
    }
}

/// In one well-formed context, at most one interned type stands for a
/// term: denotation plus the uniqueness of the tables pins the handle.
pub proof fn lemma_term_denotes_injective(ctx: &Context, a: TypeRef, b: TypeRef, term: TypeTerm)
    requires
        ctx.wf(),
        term_denotes(ctx, a, term),
        term_denotes(ctx, b, term),
    ensures
        a == b,
    decreases term,
{
    match term {
        TypeTerm::OpaqueTerm { body } => {
            let ta = ctx.types@[a.id as int]->Opaque_text;
            let tb = ctx.types@[b.id as int]->Opaque_text;
            if ta != tb {
                if ta < tb {
                    assert(views(ctx.idents@)[ta as int] != views(ctx.idents@)[tb as int]);
                } else {
                    assert(views(ctx.idents@)[tb as int] != views(ctx.idents@)[ta as int]);
                }
            }
            assert(ctx.types@[a.id as int] == ctx.types@[b.id as int]);
            if a.id != b.id {
                if a.id < b.id {
                    assert(ctx.types@[a.id as int] != ctx.types@[b.id as int]);
                } else {
                    assert(ctx.types@[b.id as int] != ctx.types@[a.id as int]);
                }
            }
        },
        TypeTerm::TensorTerm { dim, elem } => {
            let ea = ctx.types@[a.id as int]->Tensor_elem;
            let eb = ctx.types@[b.id as int]->Tensor_elem;
            lemma_term_denotes_injective(ctx, ea, eb, *elem);
            assert(ctx.types@[a.id as int] == ctx.types@[b.id as int]);
            if a.id != b.id {
                if a.id < b.id {
                    assert(ctx.types@[a.id as int] != ctx.types@[b.id as int]);
                } else {
                    assert(ctx.types@[b.id as int] != ctx.types@[a.id as int]);
                }
            }
        },
        _ => {
            assert(ctx.types@[a.id as int] == ctx.types@[b.id as int]);
            if a.id != b.id {
                if a.id < b.id {
                    assert(ctx.types@[a.id as int] != ctx.types@[b.id as int]);
                } else {
                    assert(ctx.types@[b.id as int] != ctx.types@[a.id as int]);
                }
            }
        },
    }
}

/// The type grammar: the term a piece of ASCII type text denotes from
/// position `pos`, with the position after it, or absence when no type
/// stands there.  The executable reader is pinned to this function.
pub open spec fn spec_parse_type(s: Seq<char>, pos: int, allow_unregistered: bool) -> Option<
    (TypeTerm, int),
>
    decreases s.len() - pos,
        via spec_parse_type_decreases
{
    if !(0 <= pos < s.len()) {
        None
    } else {
        let c = s[pos] as u8;
        if c == B_LOWER_I {
            if pos + 1 < s.len() && char_is_digit(s[pos + 1]) {
                match spec_digits(s, pos + 1) {
                    Some(q) => if q.0 > 16_777_215 {
                        None
                    } else {
                        Some(
                            (
                                TypeTerm::IntegerTerm {
                                    signedness: Signedness::Signless,
                                    width: q.0 as u32,
                                },
                                q.1,
                            ),
                        )
                    },
                    None => None,
                }
            } else {
                match spec_expect_lit(s, pos, "index"@) {
                    Some(p) => Some((TypeTerm::IndexTerm, p)),
                    None => None,
                }
            }
        } else if c == B_LOWER_S {
            match spec_expect_lit(s, pos, "si"@) {
                Some(p1) => match spec_digits(s, p1) {
                    Some(q) => if q.0 > 16_777_215 {
                        None
                    } else {
                        Some(
                            (
                                TypeTerm::IntegerTerm {
                                    signedness: Signedness::Signed,
                                    width: q.0 as u32,
                                },
                                q.1,
                            ),
                        )
                    },
                    None => None,
                },
                None => None,
            }
        } else if c == B_LOWER_U {
            match spec_expect_lit(s, pos, "ui"@) {
                Some(p1) => match spec_digits(s, p1) {
                    Some(q) => if q.0 > 16_777_215 {
                        None
                    } else {
                        Some(
                            (
                                TypeTerm::IntegerTerm {
                                    signedness: Signedness::Unsigned,
                                    width: q.0 as u32,
                                },
                                q.1,
                            ),
                        )
                    },
                    None => None,
                },
                None => None,
            }
        } else if c == B_LOWER_F {
            match spec_expect_lit(s, pos, "f16"@) {
                Some(p) => Some((TypeTerm::FloatTerm { kind: FloatKind::F16 }, p)),
                None => match spec_expect_lit(s, pos, "f32"@) {
                    Some(p) => Some((TypeTerm::FloatTerm { kind: FloatKind::F32 }, p)),
                    None => match spec_expect_lit(s, pos, "f64"@) {
                        Some(p) => Some((TypeTerm::FloatTerm { kind: FloatKind::F64 }, p)),
                        None => None,
                    },
                },
            }
        } else if c == B_LOWER_B {
            match spec_expect_lit(s, pos, "bf16"@) {
                Some(p) => Some((TypeTerm::FloatTerm { kind: FloatKind::BF16 }, p)),
                None => None,
            }
        } else if c == B_LOWER_N {
            match spec_expect_lit(s, pos, "none"@) {
                Some(p) => Some((TypeTerm::NoneTerm, p)),
                None => None,
            }
        } else if c == B_BANG {
            if !allow_unregistered {
                None
            } else {
                let p = spec_scan_ident(s, pos + 1);
                if p == pos + 1 {
                    None
                } else {
                    Some((TypeTerm::OpaqueTerm { body: s.subrange(pos + 1, p) }, p))
                }
            }
        } else if c == B_LOWER_T {
            match spec_expect_lit(s, pos, "tensor<"@) {
                Some(p1) => match spec_digits(s, p1) {
                    Some(q) => if q.1 < s.len() && s[q.1] as u8 == B_LOWER_X {
                        match spec_parse_type(s, q.1 + 1, allow_unregistered) {
                            Some(e) => if e.1 < s.len() && s[e.1] as u8 == B_GREATER {
                                Some(
                                    (
                                        TypeTerm::TensorTerm {
                                            dim: q.0 as u64,
                                            elem: Box::new(e.0),
                                        },
                                        e.1 + 1,
                                    ),
                                )
                            } else {
                                None
                            },
                            None => None,
                        }
                    } else {
                        None
                    },
                    None => None,
                },
                None => None,
            }
        } else {
            None
        }
    }
}

#[via_fn]
proof fn spec_parse_type_decreases(s: Seq<char>, pos: int, allow_unregistered: bool) {
    reveal_strlit("tensor<");
    if 0 <= pos < s.len() && s[pos] as u8 == B_LOWER_T {
        match spec_expect_lit(s, pos, "tensor<"@) {
            Some(p1) => {
                match spec_digits(s, p1) {
                    Some(q) => {
                        if 0 <= p1 < s.len() && char_is_digit(s[p1]) {
                            lemma_spec_digits_from_pos(s, p1 + 1, char_digit_val(s[p1]));
                            assert(q.1 >= p1 + 1);
                        }
                    },
                    None => {},
                }
            },
            None => {},
        }
    }
}

/// Reads one type at position `pos` of `s`, interning what it reads:
/// the outcome is exactly what the type grammar [`spec_parse_type`]
/// says of the text, and a returned handle stands for the denoted term.
pub fn parse_type_at(ctx: &mut Context, s: &str, pos: usize) -> (r: Option<(TypeRef, usize)>)
    requires
        old(ctx).wf(),
        s.is_ascii(),
        pos <= s@.len(),
    ensures
        final(ctx).wf(),
        final(ctx).grew_interned_only(old(ctx)),
        match r {
            Some(t_p) => t_p.0.valid(final(ctx)) && pos <= t_p.1 <= s@.len() && (spec_parse_type(
                s@,
                pos as int,
                old(ctx).allow_unregistered,
            ) matches Some(q) && q.1 == t_p.1 as int && term_denotes(final(ctx), t_p.0, q.0)),
            None => spec_parse_type(s@, pos as int, old(ctx).allow_unregistered) is None,
        },
    decreases s@.len() - pos,
{
    let ghost allow0 = old(ctx).allow_unregistered;
    let ghost sp = spec_parse_type(s@, pos as int, allow0);
    let n = s.unicode_len();
    if pos >= n {
        return None;
    }
    let c = s.get_ascii(pos);
    proof {
        assert(c == s@[pos as int] as u8);
    }
    if c == B_LOWER_I {
        if pos + 1 < n && is_digit_byte(s.get_ascii(pos + 1)) {
            match parse_digits(s, pos + 1) {
                Some((w, p)) => {
                    if w > 16_777_215 {
                        return None;
                    }
                    let t = ctx.intern_type(
                        TypeData::Integer { signedness: Signedness::Signless, width: w as u32 },
                    );
                    proof {
                        assert(sp matches Some(q) && q.1 == p as int && q.0 == (
                        TypeTerm::IntegerTerm { signedness: Signedness::Signless, width: w as u32 }));
                    }
                    Some((t, p))
                },
                None => None,
            }
        } else {
            match expect_lit(s, pos, "index") {
                Some(p) => {
                    let t = ctx.intern_type(TypeData::Index);
                    proof {
                        assert(sp matches Some(q) && q.1 == p as int && q.0 == TypeTerm::IndexTerm);
                    }
                    Some((t, p))
                },
                None => None,
            }
        }
    } else if c == B_LOWER_S {
        match expect_lit(s, pos, "si") {
            Some(p1) => {
                match parse_digits(s, p1) {
                    Some((w, p)) => {
                        if w > 16_777_215 {
                            return None;
                        }
                        let t = ctx.intern_type(
                            TypeData::Integer { signedness: Signedness::Signed, width: w as u32 },
                        );
                        proof {
                            assert(sp matches Some(q) && q.1 == p as int && q.0 == (
                            TypeTerm::IntegerTerm {
                                signedness: Signedness::Signed,
                                width: w as u32,
                            }));
                        }
                        Some((t, p))
                    },
                    None => None,
                }
            },
            None => None,
        }
    } else if c == B_LOWER_U {
        match expect_lit(s, pos, "ui") {
            Some(p1) => {
                match parse_digits(s, p1) {
                    Some((w, p)) => {
                        if w > 16_777_215 {
                            return None;
                        }
                        let t = ctx.intern_type(
                            TypeData::Integer {
                                signedness: Signedness::Unsigned,
                                width: w as u32,
                            },
                        );
                        proof {
                            assert(sp matches Some(q) && q.1 == p as int && q.0 == (
                            TypeTerm::IntegerTerm {
                                signedness: Signedness::Unsigned,
                                width: w as u32,
                            }));
                        }
                        Some((t, p))
                    },
                    None => None,
                }
            },
            None => None,
        }
    } else if c == B_LOWER_F {
        match expect_lit(s, pos, "f16") {
            Some(p) => {
                let t = ctx.intern_type(TypeData::Float { kind: FloatKind::F16 });
                proof {
                    assert(sp matches Some(q) && q.1 == p as int && q.0 == (TypeTerm::FloatTerm {
                        kind: FloatKind::F16,
                    }));
                }
                return Some((t, p));
            },
            None => {},
        }
        match expect_lit(s, pos, "f32") {
            Some(p) => {
                let t = ctx.intern_type(TypeData::Float { kind: FloatKind::F32 });
                proof {
                    assert(sp matches Some(q) && q.1 == p as int && q.0 == (TypeTerm::FloatTerm {
                        kind: FloatKind::F32,
                    }));
                }
                return Some((t, p));
            },
            None => {},
        }
        match expect_lit(s, pos, "f64") {
            Some(p) => {
                let t = ctx.intern_type(TypeData::Float { kind: FloatKind::F64 });
                proof {
                    assert(sp matches Some(q) && q.1 == p as int && q.0 == (TypeTerm::FloatTerm {
                        kind: FloatKind::F64,
                    }));
                }
                Some((t, p))
            },
            None => None,
        }
    } else if c == B_LOWER_B {
        match expect_lit(s, pos, "bf16") {
            Some(p) => {
                let t = ctx.intern_type(TypeData::Float { kind: FloatKind::BF16 });
                proof {
                    assert(sp matches Some(q) && q.1 == p as int && q.0 == (TypeTerm::FloatTerm {
                        kind: FloatKind::BF16,
                    }));
                }
                Some((t, p))
            },
            None => None,
        }
    } else if c == B_LOWER_N {
        match expect_lit(s, pos, "none") {
            Some(p) => {
                let t = ctx.intern_type(TypeData::NoneType);
                proof {
                    assert(sp matches Some(q) && q.1 == p as int && q.0 == TypeTerm::NoneTerm);
                }
                Some((t, p))
            },
            None => None,
        }
    } else if c == B_BANG {
        if !ctx.allow_unregistered {
            return None;
        }
        let mut p: usize = pos + 1;
        while p < n && is_ident_byte(s.get_ascii(p))
            invariant
                s.is_ascii(),
                n == s@.len(),
                pos < p <= n,
                spec_scan_ident(s@, pos as int + 1) == spec_scan_ident(s@, p as int),
            decreases n - p,
        {
            p = p + 1;
        }
        proof {
            assert(spec_scan_ident(s@, p as int) == p as int);
        }
        if p == pos + 1 {
            return None;
        }
        let body = s.substring_ascii(pos + 1, p);
        let idr = ctx.intern_ident(body);
        let ghost mid = *ctx;
        proof {
            crate::context::lemma_grew_idents_implies_interned(&mid, old(ctx));
        }
        let t = ctx.intern_type(TypeData::Opaque { text: idr.id });
        proof {
            crate::context::lemma_grew_interned_trans(ctx, &mid, old(ctx));
            assert(sp matches Some(q) && q.1 == p as int && q.0 == (TypeTerm::OpaqueTerm {
                body: s@.subrange(pos as int + 1, p as int),
            }));
            assert(term_denotes(ctx, t, TypeTerm::OpaqueTerm {
                body: s@.subrange(pos as int + 1, p as int),
            }));
        }
        Some((t, p))
    } else if c == B_LOWER_T {
        match expect_lit(s, pos, "tensor<") {
            Some(p1) => {
                match parse_digits(s, p1) {
                    Some((dim, p2)) => {
                        if p2 < n && s.get_ascii(p2) == B_LOWER_X {
                            match parse_type_at(ctx, s, p2 + 1) {
                                Some((elem, p3)) => {
                                    if p3 < n && s.get_ascii(p3) == B_GREATER {
                                        let ghost mid = *ctx;
                                        let ghost inner = spec_parse_type(
                                            s@,
                                            p2 as int + 1,
                                            allow0,
                                        );
                                        let t = ctx.intern_type(
                                            TypeData::Tensor { dim, elem },
                                        );
                                        proof {
                                            crate::context::lemma_grew_interned_trans(
                                                ctx,
                                                &mid,
                                                old(ctx),
                                            );
                                            lemma_term_denotes_monotone(
                                                &mid,
                                                ctx,
                                                elem,
                                                inner->Some_0.0,
                                            );
                                            assert(sp matches Some(q) && q.1 == p3 as int + 1
                                                && q.0 == (TypeTerm::TensorTerm {
                                                dim: dim,
                                                elem: Box::new(inner->Some_0.0),
                                            }));
                                            assert(term_denotes(ctx, t, TypeTerm::TensorTerm {
                                                dim: dim,
                                                elem: Box::new(inner->Some_0.0),
                                            }));
                                        }
                                        Some((t, p3 + 1))
                                    } else {
                                        None
                                    }
                                },
                                None => None,
                            }
                        } else {
                            None
                        }
                    },
                    None => None,
                }
            },
            None => None,
        }
    } else {
        None
    }
}

impl TypeRef {
    /// Attempts to parse a type from the provided string; absence
    /// exactly when the ASCII text is not a complete well-formed type
    /// of the grammar [`spec_parse_type`], never a failure.  A returned
    /// handle stands for exactly the term the text denotes, so two
    /// parses of one text yield equal handles and parses of texts
    /// denoting distinct types yield unequal ones.
    pub fn parse(ctx: &mut Context, ty: &str) -> (r: Option<TypeRef>)
        requires
            old(ctx).wf(),
        ensures
            final(ctx).wf(),
            final(ctx).grew_interned_only(old(ctx)),
            !vstd::string::is_ascii(ty) ==> r is None,
            vstd::string::is_ascii(ty) ==> ((r is Some) <==> (spec_parse_type(
                ty@,
                0,
                old(ctx).allow_unregistered,
            ) matches Some(q) && q.1 == ty@.len())),
            match r {
                Some(t) => t.valid(final(ctx)) && (spec_parse_type(
                    ty@,
                    0,
                    old(ctx).allow_unregistered,
                ) matches Some(q) && q.1 == ty@.len() && term_denotes(final(ctx), t, q.0)),
                None => true,
            },
    {
        if !ty.is_ascii() {
            return None;
        }
        let n = ty.unicode_len();
        match parse_type_at(ctx, ty, 0) {
            Some((t, p)) => {
                if p == n {
                    Some(t)
                } else {
                    None
                }
            },
            None => None,
        }
    }
}

/// The namespace of the dialect a type belongs to.
pub open spec fn spec_type_dialect_ns(ctx: &Context, t: TypeRef) -> Seq<char> {
    match ctx.types@[t.id as int] {
        TypeData::Opaque { text } => {
            let body = views(ctx.idents@)[text as int];
            if exists|k: int| crate::context::is_first_dot(body, k) {
                body.take(choose|k: int| crate::context::is_first_dot(body, k))
            } else {
                body
            }
        },
        _ => "builtin"@,
    }
}

/// A reference to an integer type; same handle shape as [`TypeRef`], but
/// only ever constructed when the discriminant predicate holds.
#[derive(Clone, Copy, Debug, PartialEq, Eq, Structural)]
pub struct IntegerTypeRef {
    pub id: usize,
}

/// A reference to a floating-point type (`f32` or `f64`).
#[derive(Clone, Copy, Debug, PartialEq, Eq, Structural)]
pub struct FloatTypeRef {
    pub id: usize,
}

/// A reference to the `none` unit type.
#[derive(Clone, Copy, Debug, PartialEq, Eq, Structural)]
pub struct NoneTypeRef {
    pub id: usize,
}

impl IntegerTypeRef {
    /// Whether this handle points at an integer type of `ctx`.
    pub open spec fn valid(&self, ctx: &Context) -> bool {
        self.id < ctx.types@.len() && ctx.types@[self.id as int] is Integer
    }

    /// Constructs (interns) a signless integer type of the given width.
    pub fn new_signless(ctx: &mut Context, bitwidth: u32) -> (r: IntegerTypeRef)
        requires
            old(ctx).wf(),
        ensures
            final(ctx).wf(),
            final(ctx).grew_interned_only(old(ctx)),
            r.valid(final(ctx)),
            final(ctx).types@[r.id as int] == (TypeData::Integer {
                signedness: Signedness::Signless,
                width: bitwidth,
            }),
    {
        let t = ctx.intern_type(
            TypeData::Integer { signedness: Signedness::Signless, width: bitwidth },
        );
        IntegerTypeRef { id: t.id }
    }

    /// Constructs (interns) a signed integer type of the given width.
    pub fn new_signed(ctx: &mut Context, bitwidth: u32) -> (r: IntegerTypeRef)
        requires
            old(ctx).wf(),
        ensures
            final(ctx).wf(),
            final(ctx).grew_interned_only(old(ctx)),
            r.valid(final(ctx)),
            final(ctx).types@[r.id as int] == (TypeData::Integer {
                signedness: Signedness::Signed,
                width: bitwidth,
            }),
    {
        let t = ctx.intern_type(
            TypeData::Integer { signedness: Signedness::Signed, width: bitwidth },
        );
        IntegerTypeRef { id: t.id }
    }

    /// Constructs (interns) an unsigned integer type of the given width.
    pub fn new_unsigned(ctx: &mut Context, bitwidth: u32) -> (r: IntegerTypeRef)
        requires
            old(ctx).wf(),
        ensures
            final(ctx).wf(),
            final(ctx).grew_interned_only(old(ctx)),
            r.valid(final(ctx)),
            final(ctx).types@[r.id as int] == (TypeData::Integer {
                signedness: Signedness::Unsigned,
                width: bitwidth,
            }),
    {
        let t = ctx.intern_type(
            TypeData::Integer { signedness: Signedness::Unsigned, width: bitwidth },
        );
        IntegerTypeRef { id: t.id }
    }

    /// Downcasts an erased type to an integer type; absence when the
    /// discriminant predicate fails.
    pub fn try_from_type(ctx: &Context, ty: TypeRef) -> (r: Option<IntegerTypeRef>)
        requires
            ty.valid(ctx),
        ensures
            match r {
                Some(it) => it.id == ty.id && ctx.types@[ty.id as int] is Integer,
                None => !(ctx.types@[ty.id as int] is Integer),
            },
    {
        match ctx.types[ty.id] {
            TypeData::Integer { .. } => Some(IntegerTypeRef { id: ty.id }),
            _ => None,
        }
    }

    /// Returns the erased type this integer type is.
    pub fn as_type(&self) -> (r: TypeRef)
        ensures
            r.id == self.id,
    {
        TypeRef { id: self.id }
    }

    /// Returns the bitwidth of the integer type.
    pub fn bitwidth(&self, ctx: &Context) -> (r: u32)
        requires
            self.valid(ctx),
        ensures
            ctx.types@[self.id as int] == (TypeData::Integer {
                signedness: ctx.types@[self.id as int]->Integer_signedness,
                width: r,
            }),
    {
        match ctx.types[self.id] {
            TypeData::Integer { width, .. } => width,
            _ => 0,
        }
    }

    /// Returns whether the integer type is signless.
    pub fn is_signless(&self, ctx: &Context) -> (r: bool)
        requires
            self.valid(ctx),
        ensures
            r == (ctx.types@[self.id as int]->Integer_signedness == Signedness::Signless),
    {
        match ctx.types[self.id] {
            TypeData::Integer { signedness, .. } => match signedness {
                Signedness::Signless => true,
                _ => false,
            },
            _ => false,
        }
    }

    /// Returns whether the integer type is signed.
    pub fn is_signed(&self, ctx: &Context) -> (r: bool)
        requires
            self.valid(ctx),
        ensures
            r == (ctx.types@[self.id as int]->Integer_signedness == Signedness::Signed),
    {
        match ctx.types[self.id] {
            TypeData::Integer { signedness, .. } => match signedness {
                Signedness::Signed => true,
                _ => false,
            },
            _ => false,
        }
    }

    /// Returns whether the integer type is unsigned.
    pub fn is_unsigned(&self, ctx: &Context) -> (r: bool)
        requires
            self.valid(ctx),
        ensures
            r == (ctx.types@[self.id as int]->Integer_signedness == Signedness::Unsigned),
    {
        match ctx.types[self.id] {
            TypeData::Integer { signedness, .. } => match signedness {
                Signedness::Unsigned => true,
                _ => false,
            },
            _ => false,
        }
    }

    /// Returns the dialect of the type (the builtin dialect).
    pub fn dialect(&self, ctx: &Context) -> (r: Option<DialectRef>)
        requires
            ctx.wf(),
            self.valid(ctx),
        ensures
            match r {
                Some(d) => d.valid(ctx) && d.spec_namespace(ctx) == "builtin"@,
                None => false,
            },
    {
        let r = self.as_type().dialect(ctx);
        proof {
            assert(spec_type_dialect_ns(ctx, TypeRef { id: self.id }) == "builtin"@);
            if r is None {
                assert(name_in(views(ctx.loaded@), "builtin"@));
            }
        }
        r
    }
}

impl FloatTypeRef {
    /// Whether this handle points at an `f32` or `f64` type of `ctx`.
    pub open spec fn valid(&self, ctx: &Context) -> bool {
        self.id < ctx.types@.len() && (ctx.types@[self.id as int] == (TypeData::Float {
            kind: FloatKind::F32,
        }) || ctx.types@[self.id as int] == (TypeData::Float { kind: FloatKind::F64 }))
    }

    /// Constructs (interns) the 32-bit floating point type.
    pub fn new_f32(ctx: &mut Context) -> (r: FloatTypeRef)
        requires
            old(ctx).wf(),
        ensures
            final(ctx).wf(),
            final(ctx).grew_interned_only(old(ctx)),
            r.valid(final(ctx)),
            final(ctx).types@[r.id as int] == (TypeData::Float { kind: FloatKind::F32 }),
    {
        let t = ctx.intern_type(TypeData::Float { kind: FloatKind::F32 });
        FloatTypeRef { id: t.id }
    }

    /// Constructs (interns) the 64-bit floating point type.
    pub fn new_f64(ctx: &mut Context) -> (r: FloatTypeRef)
        requires
            old(ctx).wf(),
        ensures
            final(ctx).wf(),
            final(ctx).grew_interned_only(old(ctx)),
            r.valid(final(ctx)),
            final(ctx).types@[r.id as int] == (TypeData::Float { kind: FloatKind::F64 }),
    {
        let t = ctx.intern_type(TypeData::Float { kind: FloatKind::F64 });
        FloatTypeRef { id: t.id }
    }

    /// Downcasts an erased type to a float type (`f32` or `f64` only).
    pub fn try_from_type(ctx: &Context, ty: TypeRef) -> (r: Option<FloatTypeRef>)
        requires
            ty.valid(ctx),
        ensures
            match r {
                Some(ft) => ft.id == ty.id && ft.valid(ctx),
                None => ctx.types@[ty.id as int] != (TypeData::Float { kind: FloatKind::F32 })
                    && ctx.types@[ty.id as int] != (TypeData::Float { kind: FloatKind::F64 }),
            },
    {
        match ctx.types[ty.id] {
            TypeData::Float { kind } => match kind {
                FloatKind::F32 => Some(FloatTypeRef { id: ty.id }),
                FloatKind::F64 => Some(FloatTypeRef { id: ty.id }),
                _ => None,
            },
            _ => None,
        }
    }

    /// Returns the erased type this float type is.
    pub fn as_type(&self) -> (r: TypeRef)
        ensures
            r.id == self.id,
    {
        TypeRef { id: self.id }
    }

    /// Returns the bitwidth of the floating point type.
    pub fn bitwidth(&self, ctx: &Context) -> (r: u32)
        requires
            self.valid(ctx),
        ensures
            r == 32 <==> ctx.types@[self.id as int] == (TypeData::Float { kind: FloatKind::F32 }),
            r == 64 <==> ctx.types@[self.id as int] == (TypeData::Float { kind: FloatKind::F64 }),
    {
        match ctx.types[self.id] {
            TypeData::Float { kind } => match kind {
                FloatKind::F64 => 64,
                _ => 32,
            },
            _ => 32,
        }
    }
}

impl NoneTypeRef {
    /// Whether this handle points at the `none` type of `ctx`.
    pub open spec fn valid(&self, ctx: &Context) -> bool {
        self.id < ctx.types@.len() && ctx.types@[self.id as int] is NoneType
    }

    /// Constructs (interns) the `none` unit type.
    pub fn new(ctx: &mut Context) -> (r: NoneTypeRef)
        requires
            old(ctx).wf(),
        ensures
            final(ctx).wf(),
            final(ctx).grew_interned_only(old(ctx)),
            r.valid(final(ctx)),
    {
        let t = ctx.intern_type(TypeData::NoneType);
        NoneTypeRef { id: t.id }
    }

    /// Downcasts an erased type to the `none` type.
    pub fn try_from_type(ctx: &Context, ty: TypeRef) -> (r: Option<NoneTypeRef>)
        requires
            ty.valid(ctx),
        ensures
            match r {
                Some(nt) => nt.id == ty.id && ctx.types@[ty.id as int] is NoneType,
                None => !(ctx.types@[ty.id as int] is NoneType),
            },
    {
        match ctx.types[ty.id] {
            TypeData::NoneType => Some(NoneTypeRef { id: ty.id }),
            _ => None,
        }
    }

    /// Returns the erased type this `none` type is.
    pub fn as_type(&self) -> (r: TypeRef)
        ensures
            r.id == self.id,
    {
        TypeRef { id: self.id }
    }

    /// Returns the dialect of the type (the builtin dialect).
    pub fn dialect(&self, ctx: &Context) -> (r: Option<DialectRef>)
        requires
            ctx.wf(),
            self.valid(ctx),
        ensures
            match r {
                Some(d) => d.valid(ctx) && d.spec_namespace(ctx) == "builtin"@,
                None => false,
            },
    {
        let r = self.as_type().dialect(ctx);
        proof {
            assert(spec_type_dialect_ns(ctx, TypeRef { id: self.id }) == "builtin"@);
            if r is None {
                assert(name_in(views(ctx.loaded@), "builtin"@));
            }
        }
        r
    }
}

} // verus!
