//! The dialect registry: a namespace table with a lifetime independent of
//! any context; its contents can seed a fresh context or be appended to
//! an existing one.

use vstd::prelude::*;
use crate::context::merge_into;
use crate::context::merge_names;
use crate::context::lemma_merge_names_unique;
use crate::context::names_unique;
use crate::context::views;

verus! {

/// A namespace-to-constructor table.  Only the namespaces are observable
/// at this layer; constructors live behind the handle boundary.
pub struct DialectRegistry {
    /// Registered namespaces, unique, in insertion order.
    pub namespaces: Vec<String>,
}

impl DialectRegistry {
    /// The registry invariant: no namespace occurs twice.
    pub open spec fn wf(&self) -> bool {
        names_unique(views(self.namespaces@))
    }

    /// Registers every dialect the library knows with this registry.
    pub fn register_all_dialects(&mut self)
        requires
            old(self).wf(),
        ensures
            final(self).wf(),
            views(final(self).namespaces@) == merge_names(
                views(old(self).namespaces@),
                spec_all_dialect_namespaces(),
            ),
    {
        let all = all_dialect_namespaces();
        proof {
            lemma_merge_names_unique(views(self.namespaces@), views(all@));
        }
        merge_into(&mut self.namespaces, &all);
    }
}

impl Default for DialectRegistry {
    /// Creates an empty registry.
    fn default() -> (r: DialectRegistry)
        ensures
            r.wf(),
            views(r.namespaces@) =~= Seq::<Seq<char>>::empty(),
    {
        DialectRegistry { namespaces: Vec::new() }
    }
}

/// The namespaces that registering all dialects adds, in order.
pub open spec fn spec_all_dialect_namespaces() -> Seq<Seq<char>> {
    seq![
        "acc"@,
        "affine"@,
        "amdgpu"@,
        "amx"@,
        "arith"@,
        "arm_neon"@,
        "arm_sme"@,
        "arm_sve"@,
        "async"@,
        "bufferization"@,
        "cf"@,
        "complex"@,
        "dlti"@,
        "emitc"@,
        "func"@,
        "gpu"@,
        "index"@,
        "linalg"@,
        "llvm"@,
        "math"@,
        "memref"@,
        "mesh"@,
        "ml_program"@,
        "nvgpu"@,
        "nvvm"@,
        "omp"@,
        "pdl"@,
        "pdl_interp"@,
        "quant"@,
        "rocdl"@,
        "scf"@,
        "shape"@,
        "sparse_tensor"@,
        "spirv"@,
        "tensor"@,
        "tosa"@,
        "transform"@,
        "ub"@,
        "vector"@,
        "x86vector"@,
        "xegpu"@,
    ]
}

/// Builds the list of all registerable dialect namespaces.
pub fn all_dialect_namespaces() -> (r: Vec<String>)
    ensures
        views(r@) =~= spec_all_dialect_namespaces(),
{
    let mut v: Vec<String> = Vec::new();
    v.push("acc".to_owned());
    v.push("affine".to_owned());
    v.push("amdgpu".to_owned());
    v.push("amx".to_owned());
    v.push("arith".to_owned());
    v.push("arm_neon".to_owned());
    v.push("arm_sme".to_owned());
    v.push("arm_sve".to_owned());
    v.push("async".to_owned());
    v.push("bufferization".to_owned());
    v.push("cf".to_owned());
    v.push("complex".to_owned());
    v.push("dlti".to_owned());
    v.push("emitc".to_owned());
    v.push("func".to_owned());
    v.push("gpu".to_owned());
    v.push("index".to_owned());
    v.push("linalg".to_owned());
    v.push("llvm".to_owned());
    v.push("math".to_owned());
    v.push("memref".to_owned());
    v.push("mesh".to_owned());
    v.push("ml_program".to_owned());
    v.push("nvgpu".to_owned());
    v.push("nvvm".to_owned());
    v.push("omp".to_owned());
    v.push("pdl".to_owned());
    v.push("pdl_interp".to_owned());
    v.push("quant".to_owned());
    v.push("rocdl".to_owned());
    v.push("scf".to_owned());
    v.push("shape".to_owned());
    v.push("sparse_tensor".to_owned());
    v.push("spirv".to_owned());
    v.push("tensor".to_owned());
    v.push("tosa".to_owned());
    v.push("transform".to_owned());
    v.push("ub".to_owned());
    v.push("vector".to_owned());
    v.push("x86vector".to_owned());
    v.push("xegpu".to_owned());
    v
}

} // verus!
