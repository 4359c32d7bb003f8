//! Attributes: parsing, interning equality, variants and identifiers.

use mlir_ir::AttributeRef;
use mlir_ir::BoolAttributeRef;
use mlir_ir::Context;
use mlir_ir::DenseBoolAttributeRef;
use mlir_ir::DenseI32AttributeRef;
use mlir_ir::DenseStringAttributeRef;
use mlir_ir::FloatAttributeRef;
use mlir_ir::IdentifierRef;
use mlir_ir::IntegerAttributeRef;
use mlir_ir::NoneTypeRef;
use mlir_ir::StringAttributeRef;
use mlir_ir::TypeRef;

#[test]
fn attribute_parse_attribute() {
    let mut context = Context::new(None, false);
    assert!(AttributeRef::parse(&mut context, "unit").is_some());
    assert!(AttributeRef::parse(&mut context, "i32").is_some());
    assert!(AttributeRef::parse(&mut context, "\"foo\"").is_some());
    assert!(AttributeRef::parse(&mut context, "z").is_none());
}

#[test]
fn attribute_type() {
    let mut context = Context::new(None, false);
    let attribute = AttributeRef::parse(&mut context, "unit").unwrap();
    let ty = attribute.get_type(&mut context);
    let none = NoneTypeRef::new(&mut context);
    assert_eq!(ty, none.as_type());
}

#[test]
fn attribute_dialect() {
    let mut context = Context::new(None, false);
    let attribute = AttributeRef::parse(&mut context, "unit").unwrap();
    let dialect = attribute.dialect(&context);
    assert_eq!(dialect.namespace(&context), "builtin");
}

#[test]
fn attribute_with_name() {
    let mut context = Context::new(None, false);
    let attribute = AttributeRef::parse(&mut context, "unit").unwrap();
    let named_attribute = attribute.with_name(&mut context, "example");
    assert_eq!(named_attribute.name().value(&context), "example");
    let again = AttributeRef::parse(&mut context, "unit").unwrap();
    assert_eq!(named_attribute.attribute(), again);
}

#[test]
fn attribute_compare_attributes() {
    let mut context = Context::new(None, false);
    let attribute1 = AttributeRef::parse(&mut context, "unit").unwrap();
    let attribute2 = AttributeRef::parse(&mut context, "unit").unwrap();
    let attribute3 = AttributeRef::parse(&mut context, "i32").unwrap();
    assert_eq!(attribute1, attribute1);
    assert_eq!(attribute1, attribute2);
    assert_eq!(attribute2, attribute2);
    assert_ne!(attribute1, attribute3);
    assert_ne!(attribute3, attribute1);
    assert_ne!(attribute2, attribute3);
    assert_ne!(attribute3, attribute2);
}

#[test]
fn bool_value() {
    let mut context = Context::new(None, false);
    let attr = BoolAttributeRef::new(&mut context, true);
    assert!(attr.value(&context));
}

#[test]
fn bool_from_attribute() {
    let mut context = Context::new(None, false);
    let erased_bool_attribute = AttributeRef::parse(&mut context, "true").unwrap();
    let erased_int_attribute = AttributeRef::parse(&mut context, "64 : i32").unwrap();
    assert!(BoolAttributeRef::try_from_attribute(&context, erased_bool_attribute).is_some());
    assert!(BoolAttributeRef::try_from_attribute(&context, erased_int_attribute).is_none());
}

#[test]
fn integer_value() {
    let mut context = Context::new(None, false);
    let integer_type = mlir_ir::IntegerTypeRef::new_signless(&mut context, 32);
    let integer_attribute = IntegerAttributeRef::new(&mut context, integer_type, 42);
    assert_eq!(integer_attribute.value_signed(&context), 42);
    assert_eq!(integer_attribute.value_unsigned(&context), 42);
}

#[test]
fn integer_from_attribute() {
    let mut context = Context::new(None, false);
    let erased_integer_attribute = AttributeRef::parse(&mut context, "42 : i32").unwrap();
    let integer_attribute =
        IntegerAttributeRef::try_from_attribute(&context, erased_integer_attribute).unwrap();
    assert_eq!(integer_attribute.value_signed(&context), 42);
}

#[test]
fn float_from_attribute() {
    let mut context = Context::new(None, false);
    let erased_float_attribute = AttributeRef::parse(&mut context, "3.14 : f64").unwrap();
    let erased_integer_attribute = AttributeRef::parse(&mut context, "3 : i64").unwrap();
    assert!(FloatAttributeRef::try_from_attribute(&context, erased_float_attribute).is_some());
    assert!(FloatAttributeRef::try_from_attribute(&context, erased_integer_attribute).is_none());
}

#[test]
fn string_value() {
    let mut context = Context::new(None, false);
    let attr = StringAttributeRef::new(&mut context, "hello");
    assert_eq!(attr.value(&context), "hello");
}

#[test]
fn string_from_attribute() {
    let mut context = Context::new(None, false);
    let erased_attribute = AttributeRef::parse(&mut context, "\"hello, world\"").unwrap();
    let string_attribute =
        StringAttributeRef::try_from_attribute(&context, erased_attribute).unwrap();
    assert_eq!(string_attribute.value(&context), "hello, world");
    let erased_int = AttributeRef::parse(&mut context, "64 : i32").unwrap();
    assert!(StringAttributeRef::try_from_attribute(&context, erased_int).is_none());
}

#[test]
fn dense_bool_get_elements_len() {
    let mut context = Context::new(None, false);
    let values = [true, false, true];
    let attr = DenseBoolAttributeRef::new(&mut context, &values);
    assert_eq!(attr.len(&context), 3);
    assert!(!attr.is_empty(&context));
}

#[test]
fn get_value() {
    let mut context = Context::new(None, false);
    let values = [true, false, true];
    let attr = DenseBoolAttributeRef::new(&mut context, &values);
    assert!(attr.get(&context, 0));
    assert!(!attr.get(&context, 1));
    assert!(attr.get(&context, 2));
}

#[test]
fn dense_i32_elements() {
    let mut context = Context::new(None, false);
    let values = [4, 5, 6];
    let attr = DenseI32AttributeRef::new(&mut context, &values);
    assert_eq!(attr.len(&context), 3);
    assert!(!attr.is_empty(&context));
    assert_eq!(attr.get(&context, 0), 4);
    assert_eq!(attr.get(&context, 1), 5);
    assert_eq!(attr.get(&context, 2), 6);
}

#[test]
fn dense_string_get_elements_len() {
    let mut context = Context::new(None, false);
    context.set_allow_unregistered_dialects(true);
    let values = vec![
        String::from("hello"),
        String::from("world"),
        String::from("foo"),
    ];
    let string_type = TypeRef::parse(&mut context, "!dialect.string").unwrap();
    let attr = DenseStringAttributeRef::new(&mut context, &values, string_type);
    assert_eq!(attr.len(&context), 3);
    assert!(!attr.is_empty(&context));
}

#[test]
fn get_values() {
    let mut context = Context::new(None, false);
    context.set_allow_unregistered_dialects(true);
    let values = vec![
        String::from("hello"),
        String::from("world"),
        String::from("foo"),
    ];
    let string_type = TypeRef::parse(&mut context, "!dialect.string").unwrap();
    let attr = DenseStringAttributeRef::new(&mut context, &values, string_type);
    assert_eq!(attr.get(&context, 0), "hello");
    assert_eq!(attr.get(&context, 1), "world");
    assert_eq!(attr.get(&context, 2), "foo");
}

#[test]
fn empty_array() {
    let mut context = Context::new(None, false);
    context.set_allow_unregistered_dialects(true);
    let values: Vec<String> = Vec::new();
    let string_type = TypeRef::parse(&mut context, "!dialect.string").unwrap();
    let attr = DenseStringAttributeRef::new(&mut context, &values, string_type);
    assert_eq!(attr.len(&context), 0);
    assert!(attr.is_empty(&context));
}

#[test]
fn identifier_value() {
    let mut context = Context::new(None, false);
    let identifier = IdentifierRef::new(&mut context, "test");
    assert_eq!(identifier.value(&context), "test");
}

#[test]
fn compare_identifiers() {
    let mut context = Context::new(None, false);
    let identifier1 = IdentifierRef::new(&mut context, "test");
    let identifier2 = IdentifierRef::new(&mut context, "test");
    let identifier3 = IdentifierRef::new(&mut context, "other");
    assert_eq!(identifier1, identifier1);
    assert_eq!(identifier1, identifier2);
    assert_ne!(identifier1, identifier3);
    assert_ne!(identifier2, identifier3);
    assert_eq!(identifier3, identifier3);
}
