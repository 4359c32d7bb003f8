//! Types: parsing, interning equality, downcasts and widths.

use mlir_ir::Context;
use mlir_ir::FloatTypeRef;
use mlir_ir::IntegerTypeRef;
use mlir_ir::NoneTypeRef;
use mlir_ir::TypeRef;

#[test]
fn type_parse() {
    let mut context = Context::new(None, false);
    assert!(TypeRef::parse(&mut context, "i32").is_some());
    assert!(TypeRef::parse(&mut context, "f32").is_some());
    assert!(TypeRef::parse(&mut context, "index").is_some());
    assert!(TypeRef::parse(&mut context, "z").is_none());
    assert!(TypeRef::parse(&mut context, "i32x").is_none());
    assert!(TypeRef::parse(&mut context, "").is_none());
}

#[test]
fn type_dialect() {
    let mut context = Context::new(None, false);
    let ty = TypeRef::parse(&mut context, "i32").unwrap();
    let dialect = ty.dialect(&context).unwrap();
    assert_eq!(dialect.namespace(&context), "builtin");
}

#[test]
fn compare_types() {
    let mut context = Context::new(None, false);
    let type1 = TypeRef::parse(&mut context, "i32").unwrap();
    let type2 = TypeRef::parse(&mut context, "i32").unwrap();
    let type3 = TypeRef::parse(&mut context, "f32").unwrap();
    assert_eq!(type1, type1);
    assert_eq!(type1, type2);
    assert_eq!(type2, type2);
    assert_ne!(type1, type3);
    assert_ne!(type3, type1);
    assert_ne!(type2, type3);
    assert_ne!(type3, type2);
}

#[test]
fn type_to_text() {
    let mut context = Context::new(None, false);
    let ty = TypeRef::parse(&mut context, "si8").unwrap();
    assert_eq!(ty.to_text(&context), "si8");
    let ty2 = TypeRef::parse(&mut context, "ui16").unwrap();
    assert_eq!(ty2.to_text(&context), "ui16");
    let ty3 = TypeRef::parse(&mut context, "index").unwrap();
    assert_eq!(ty3.to_text(&context), "index");
}

#[test]
fn opaque_type_needs_tolerance() {
    let mut context = Context::new(None, false);
    assert!(TypeRef::parse(&mut context, "!dialect.string").is_none());
    context.set_allow_unregistered_dialects(true);
    let ty = TypeRef::parse(&mut context, "!dialect.string").unwrap();
    assert_eq!(ty.to_text(&context), "!dialect.string");
}

#[test]
fn integer_dialect() {
    let mut context = Context::new(None, false);
    let integer_type = IntegerTypeRef::new_signless(&mut context, 32);
    let dialect = integer_type.dialect(&context).unwrap();
    assert_eq!(dialect.namespace(&context), "builtin");
}

#[test]
fn integer_from_type() {
    let mut context = Context::new(None, false);
    let erased_integer_type = TypeRef::parse(&mut context, "i32").unwrap();
    let erased_unit_type = TypeRef::parse(&mut context, "none").unwrap();
    assert!(IntegerTypeRef::try_from_type(&context, erased_integer_type).is_some());
    assert!(IntegerTypeRef::try_from_type(&context, erased_unit_type).is_none());
}

#[test]
fn integer_bitwidth() {
    let mut context = Context::new(None, false);
    let t16 = IntegerTypeRef::new_signless(&mut context, 16);
    assert_eq!(t16.bitwidth(&context), 16);
    let t32 = IntegerTypeRef::new_signless(&mut context, 32);
    assert_eq!(t32.bitwidth(&context), 32);
    let t64 = IntegerTypeRef::new_signless(&mut context, 64);
    assert_eq!(t64.bitwidth(&context), 64);
    let t128 = IntegerTypeRef::new_signless(&mut context, 128);
    assert_eq!(t128.bitwidth(&context), 128);
}

#[test]
fn signless() {
    let mut context = Context::new(None, false);
    let ty = IntegerTypeRef::new_signless(&mut context, 64);
    assert!(ty.is_signless(&context));
    assert!(!ty.is_signed(&context));
    assert!(!ty.is_unsigned(&context));
}

#[test]
fn signed() {
    let mut context = Context::new(None, false);
    let ty = IntegerTypeRef::new_signed(&mut context, 64);
    assert!(!ty.is_signless(&context));
    assert!(ty.is_signed(&context));
    assert!(!ty.is_unsigned(&context));
}

#[test]
fn unsigned() {
    let mut context = Context::new(None, false);
    let ty = IntegerTypeRef::new_unsigned(&mut context, 64);
    assert!(!ty.is_signless(&context));
    assert!(!ty.is_signed(&context));
    assert!(ty.is_unsigned(&context));
}

#[test]
fn float_bitwidth() {
    let mut context = Context::new(None, false);
    let f32_type = FloatTypeRef::new_f32(&mut context);
    let f64_type = FloatTypeRef::new_f64(&mut context);
    assert_eq!(f32_type.bitwidth(&context), 32);
    assert_eq!(f64_type.bitwidth(&context), 64);
}

#[test]
fn float_from_type() {
    let mut context = Context::new(None, false);
    let erased_f32_type = TypeRef::parse(&mut context, "f32").unwrap();
    let erased_f64_type = TypeRef::parse(&mut context, "f64").unwrap();
    let erased_i32_type = TypeRef::parse(&mut context, "i32").unwrap();
    assert!(FloatTypeRef::try_from_type(&context, erased_f32_type).is_some());
    assert!(FloatTypeRef::try_from_type(&context, erased_f64_type).is_some());
    assert!(FloatTypeRef::try_from_type(&context, erased_i32_type).is_none());
}

#[test]
fn none_dialect() {
    let mut context = Context::new(None, false);
    let none_type = NoneTypeRef::new(&mut context);
    let dialect = none_type.dialect(&context).unwrap();
    assert_eq!(dialect.namespace(&context), "builtin");
}

#[test]
fn none_from_type() {
    let mut context = Context::new(None, false);
    let erased_unit_type = TypeRef::parse(&mut context, "none").unwrap();
    let erased_integer_type = TypeRef::parse(&mut context, "i32").unwrap();
    assert!(NoneTypeRef::try_from_type(&context, erased_unit_type).is_some());
    assert!(NoneTypeRef::try_from_type(&context, erased_integer_type).is_none());
}
