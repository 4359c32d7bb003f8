//! Dialect handles: process-wide descriptors for a dialect's registration
//! hooks.  A handle has no lifecycle of its own; it can insert its
//! dialect into a registry, register it with a context, or load it.

use vstd::prelude::*;
use crate::context::Context;
use crate::context::find_name;
use crate::context::lemma_merge_names_in;
use crate::context::lemma_merge_names_unique;
use crate::context::lemma_push_unique;
use crate::context::merge_names;
use crate::context::name_in;
use crate::context::views;
use crate::dialect::DialectRef;
use crate::dialect_registry::DialectRegistry;

verus! {

/// A stateless descriptor for one dialect, identified by its namespace.
#[derive(Clone, Debug)]
pub struct DialectHandle {
    pub ns: String,
}

impl DialectHandle {
    /// Builds the descriptor for the dialect with the given namespace.
    pub fn from_namespace(namespace: &str) -> (r: DialectHandle)
        ensures
            r.ns@ == namespace@,
    {
        DialectHandle { ns: namespace.to_owned() }
    }

    /// Returns the namespace of the dialect.
    pub fn namespace(&self) -> (r: String)
        ensures
            r@ == self.ns@,
    {
        self.ns.clone()
    }

    /// Inserts the dialect into the provided dialect registry.
    pub fn insert_into_registry(&self, dialect_registry: &mut DialectRegistry)
        requires
            old(dialect_registry).wf(),
        ensures
            final(dialect_registry).wf(),
            views(final(dialect_registry).namespaces@) == merge_names(
                views(old(dialect_registry).namespaces@),
                seq![self.ns@],
            ),
    {
        proof {
            lemma_merge_names_unique(views(dialect_registry.namespaces@), seq![self.ns@]);
        }
        push_name_if_absent(&mut dialect_registry.namespaces, &self.ns);
    }

    /// Registers the dialect with the provided context without loading it.
    pub fn register_with_context(&self, context: &mut Context)
        requires
            old(context).wf(),
        ensures
            final(context).wf(),
            views(final(context).registered@) == merge_names(
                views(old(context).registered@),
                seq![self.ns@],
            ),
            *final(context) == (Context { registered: final(context).registered, ..*old(context) }),
    {
        proof {
            lemma_merge_names_unique(views(context.registered@), seq![self.ns@]);
            lemma_merge_names_in(views(context.registered@), seq![self.ns@], "builtin"@);
        }
        push_name_if_absent(&mut context.registered, &self.ns);
    }

    /// Loads the dialect into the provided context, returning a reference
    /// to the loaded dialect.  Loading does not register.
    pub fn load_into_context(&self, context: &mut Context) -> (r: DialectRef)
        requires
            old(context).wf(),
        ensures
            final(context).wf(),
            *final(context) == (Context { loaded: final(context).loaded, ..*old(context) }),
            views(final(context).loaded@) == merge_names(
                views(old(context).loaded@),
                seq![self.ns@],
            ),
            r.valid(final(context)),
            r.spec_namespace(final(context)) == self.ns@,
    {
        proof {
            lemma_merge_names_unique(views(context.loaded@), seq![self.ns@]);
            lemma_merge_names_in(views(context.loaded@), seq![self.ns@], "builtin"@);
        }
        proof {
            lemma_merge_single(views(context.loaded@), self.ns@);
        }
        let r = match find_name(&context.loaded, self.ns.as_str()) {
            Some(i) => {
                proof {
                    assert(views(context.loaded@)[i as int] == self.ns@);
                    crate::context::lemma_name_in_index(views(context.loaded@), i as int);
                }
                DialectRef { id: i }
            },
            None => {
                let id = context.loaded.len();
                let ghost before = views(context.loaded@);
                context.loaded.push(self.ns.clone());
                proof {
                    assert(views(context.loaded@) =~= before.push(self.ns@));
                    lemma_push_unique(before, self.ns@);
                    let bi = choose|bi: int| 0 <= bi < before.len() && before[bi] == "builtin"@;
                    assert(views(context.loaded@)[bi] == "builtin"@);
                    crate::context::lemma_name_in_index(views(context.loaded@), bi);
                }
                DialectRef { id }
            },
        };
        r
    }
}

/// Merging a single name appends it exactly when it is absent.
pub proof fn lemma_merge_single(a: Seq<Seq<char>>, x: Seq<char>)
    ensures
        merge_names(a, seq![x]) == if name_in(a, x) {
            a
        } else {
            a.push(x)
        },
{
    let b = seq![x];
    assert(b[0] == x);
    assert(b.drop_first() =~= Seq::<Seq<char>>::empty());
    let a2 = if name_in(a, x) {
        a
    } else {
        a.push(x)
    };
    assert(merge_names(a, b) == merge_names(a2, b.drop_first()));
    assert(merge_names(a2, b.drop_first()) == a2);
}

/// Appends `s` to `v` when no entry equal to it is present.
pub fn push_name_if_absent(v: &mut Vec<String>, s: &String)
    ensures
        views(final(v)@) == merge_names(views(old(v)@), seq![s@]),
{
    proof {
        lemma_merge_single(views(v@), s@);
    }
    let found = find_name(v, s.as_str());
    match found {
        Some(i) => {
            proof {
                assert(views(v@)[i as int] == s@);
                crate::context::lemma_name_in_index(views(v@), i as int);
            }
        },
        None => {
            let ghost before = v@;
            v.push(s.clone());
            proof {
                assert(views(v@) =~= views(before).push(s@));
            }
        },
    }
}

} // verus!
