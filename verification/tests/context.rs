//! Context and dialect-table behavior.

use mlir_ir::Context;
use mlir_ir::DialectHandle;
use mlir_ir::DialectRegistry;

#[test]
fn new() {
    let context = Context::new(None, false);
    assert_eq!(context.num_registered_dialects(), 1);
    assert_eq!(context.num_loaded_dialects(), 1);
}

#[test]
fn new_with_registry() {
    let mut dialect_registry = DialectRegistry::default();
    dialect_registry.register_all_dialects();
    let context = Context::new(Some(&dialect_registry), false);
    assert_eq!(context.num_registered_dialects(), 42);
    assert_eq!(context.num_loaded_dialects(), 1);
}

#[test]
fn allows_unregistered_dialects() {
    let mut context = Context::new(None, false);
    assert!(!context.allows_unregistered_dialects());
    context.set_allow_unregistered_dialects(true);
    assert!(context.allows_unregistered_dialects());
}

#[test]
fn append_dialect_registry() {
    let mut context = Context::new(None, false);
    let mut dialect_registry = DialectRegistry::default();
    dialect_registry.register_all_dialects();
    context.append_dialect_registry(&dialect_registry);
    assert_eq!(context.num_registered_dialects(), 42);
    assert_eq!(context.num_loaded_dialects(), 1);
}

#[test]
fn load_dialects() {
    let mut dialect_registry = DialectRegistry::default();
    dialect_registry.register_all_dialects();
    let mut context = Context::new(Some(&dialect_registry), false);
    context.load_all_available_dialects();
    assert_eq!(context.num_loaded_dialects(), 42);
}

#[test]
fn get_dialect() {
    let mut context = Context::new(None, false);
    let builtin = context.get_or_load_dialect("builtin").unwrap();
    assert_eq!(builtin.namespace(&context), "builtin");
    assert!(context.get_or_load_dialect("func").is_none());

    let mut dialect_registry = DialectRegistry::default();
    dialect_registry.register_all_dialects();
    context.append_dialect_registry(&dialect_registry);
    let func = context.get_or_load_dialect("func").unwrap();
    assert_eq!(func.namespace(&context), "func");
}

#[test]
fn is_registered_operation() {
    let mut context = Context::new(None, false);
    assert!(context.is_operation_registered("builtin.module"));
    assert!(!context.is_operation_registered("func.func"));

    let mut dialect_registry = DialectRegistry::default();
    dialect_registry.register_all_dialects();
    context.append_dialect_registry(&dialect_registry);
    assert!(!context.is_operation_registered("func.func"));

    context.load_all_available_dialects();
    assert!(context.is_operation_registered("func.func"));
}

#[test]
fn empty_registry() {
    let dialect_registry = DialectRegistry::default();
    let context = Context::new(Some(&dialect_registry), false);
    assert_eq!(context.num_registered_dialects(), 1);
}

#[test]
fn all_available_dialects() {
    let mut dialect_registry = DialectRegistry::default();
    dialect_registry.register_all_dialects();
    let context = Context::new(Some(&dialect_registry), false);
    assert_eq!(context.num_registered_dialects(), 42);
}

#[test]
fn dialect_namespace() {
    let dialect_handle = DialectHandle::from_namespace("func");
    let mut context = Context::new(None, false);
    let dialect = dialect_handle.load_into_context(&mut context);
    assert_eq!(dialect.namespace(&context), "func");
}

#[test]
fn compare_dialects() {
    let dialect_handle_func = DialectHandle::from_namespace("func");
    let dialect_handle_arith = DialectHandle::from_namespace("arith");
    let mut context = Context::new(None, false);
    let dialect_func = dialect_handle_func.load_into_context(&mut context);
    let dialect_arith = dialect_handle_arith.load_into_context(&mut context);
    assert_eq!(dialect_func, dialect_func);
    assert_ne!(dialect_func, dialect_arith);
    assert_ne!(dialect_arith, dialect_func);
    assert_eq!(dialect_arith, dialect_arith);
}

#[test]
fn dialect_handle_namespace() {
    let dialect_handle = DialectHandle::from_namespace("func");
    assert_eq!(dialect_handle.namespace(), "func");
}

#[test]
fn dialect_handle_insert_into_registry() {
    let dialect_handle = DialectHandle::from_namespace("func");
    let mut dialect_registry = DialectRegistry::default();
    dialect_handle.insert_into_registry(&mut dialect_registry);

    let context = Context::new(Some(&dialect_registry), false);
    assert_eq!(context.num_registered_dialects(), 2);
    assert_eq!(context.num_loaded_dialects(), 1);
}

#[test]
fn dialect_handle_register_with_context() {
    let dialect_handle = DialectHandle::from_namespace("func");
    let mut context = Context::new(None, false);
    dialect_handle.register_with_context(&mut context);
    assert_eq!(context.num_registered_dialects(), 2);
    assert_eq!(context.num_loaded_dialects(), 1);
}

#[test]
fn dialect_handle_load_into_context() {
    let dialect_handle = DialectHandle::from_namespace("func");
    let mut context = Context::new(None, false);
    let dialect = dialect_handle.load_into_context(&mut context);
    assert_eq!(context.num_registered_dialects(), 1);
    assert_eq!(context.num_loaded_dialects(), 2);
    assert_eq!(dialect.namespace(&context), "func");
}
