//! Tree and use-list discipline, attribute namespaces, and passes.

use mlir_ir::AttributeRef;
use mlir_ir::BlockRef;
use mlir_ir::Context;
use mlir_ir::LocationRef;
use mlir_ir::LogicalResult;
use mlir_ir::OperationBuilder;
use mlir_ir::OperationRef;
use mlir_ir::Pass;
use mlir_ir::PassManager;
use mlir_ir::RegionRef;
use mlir_ir::TypeRef;
use mlir_ir::pass::create_canonicalization_pass;
use mlir_ir::pass::create_cse_pass;
use mlir_ir::pass::create_dce_pass;

#[test]
fn append_operation_links_tree() {
    let mut context = Context::new(None, false);
    context.set_allow_unregistered_dialects(true);
    let module = OperationRef::parse(&mut context, "module {}", "test.mlir").unwrap();
    let region = module.region(&context, 0);
    let block = region.first_block(&context).unwrap();
    assert!(block.first_operation(&context).is_none());

    let loc = LocationRef::new_unknown(&mut context);
    let op1 = OperationBuilder::new("dialect.op1", loc).build(&mut context).unwrap();
    let op2 = OperationBuilder::new("dialect.op2", loc).build(&mut context).unwrap();
    block.append_operation(&mut context, op1);
    block.append_operation(&mut context, op2);

    assert_eq!(op1.parent_block(&context), Some(block));
    assert_eq!(op2.parent_block(&context), Some(block));
    let first = block.first_operation(&context).unwrap();
    assert_eq!(first, op1);
    let second = first.next_in_parent_block(&context).unwrap();
    assert_eq!(second, op2);
    assert!(second.next_in_parent_block(&context).is_none());
    assert_eq!(block.terminator(&context), Some(op2));
}

#[test]
fn standalone_block_and_region() {
    let mut context = Context::new(None, false);
    let loc = LocationRef::new_unknown(&mut context);
    let i32_type = TypeRef::parse(&mut context, "i32").unwrap();
    let region = RegionRef::new(&mut context);
    let block = BlockRef::new(&mut context, &vec![(i32_type, loc)]);
    assert_eq!(block.num_arguments(&context), 1);
    let arg = block.argument(&context, 0);
    assert!(arg.is_block_argument());
    assert!(!arg.is_op_result());
    assert_eq!(arg.get_type(&context), i32_type);
    region.append_block(&mut context, block);
    assert_eq!(region.first_block(&context), Some(block));
    assert_eq!(block.parent_region(&context), Some(region));
}

#[test]
fn use_list_newest_first() {
    let mut context = Context::new(None, false);
    context.set_allow_unregistered_dialects(true);
    let loc = LocationRef::new_unknown(&mut context);
    let i32_type = TypeRef::parse(&mut context, "i32").unwrap();
    let producer = OperationBuilder::new("dialect.producer", loc)
        .add_results(&vec![i32_type])
        .build(&mut context)
        .unwrap();
    let value = producer.result(&context, 0);
    assert!(value.is_op_result());
    assert!(value.get_first_use(&context).is_none());

    let user_a = OperationBuilder::new("dialect.a", loc)
        .add_operands(&vec![value])
        .build(&mut context)
        .unwrap();
    let first = value.get_first_use(&context).unwrap();
    assert_eq!(first.get_owner(), user_a);
    assert!(first.next_use(&context).is_none());

    let user_b = OperationBuilder::new("dialect.b", loc)
        .add_operands(&vec![value, value])
        .build(&mut context)
        .unwrap();
    let newest = value.get_first_use(&context).unwrap();
    assert_eq!(newest.get_owner(), user_b);
    let second = newest.next_use(&context).unwrap();
    assert_eq!(second.get_owner(), user_b);
    let third = second.next_use(&context).unwrap();
    assert_eq!(third.get_owner(), user_a);
    assert!(third.next_use(&context).is_none());
    assert_eq!(newest.get_value(&context), value);
}

#[test]
fn set_operand_rewires() {
    let mut context = Context::new(None, false);
    context.set_allow_unregistered_dialects(true);
    let loc = LocationRef::new_unknown(&mut context);
    let i32_type = TypeRef::parse(&mut context, "i32").unwrap();
    let p1 = OperationBuilder::new("dialect.p1", loc)
        .add_results(&vec![i32_type])
        .build(&mut context)
        .unwrap();
    let p2 = OperationBuilder::new("dialect.p2", loc)
        .add_results(&vec![i32_type])
        .build(&mut context)
        .unwrap();
    let v1 = p1.result(&context, 0);
    let v2 = p2.result(&context, 0);
    let user = OperationBuilder::new("dialect.user", loc)
        .add_operands(&vec![v1])
        .build(&mut context)
        .unwrap();
    assert_eq!(user.operand(&context, 0), v1);
    user.set_operand(&mut context, 0, v2);
    assert_eq!(user.operand(&context, 0), v2);
    assert!(v1.get_first_use(&context).is_none());
    assert_eq!(v2.get_first_use(&context).unwrap().get_owner(), user);
}

#[test]
fn attribute_namespaces_independent() {
    let mut context = Context::new(None, false);
    context.set_allow_unregistered_dialects(true);
    let loc = LocationRef::new_unknown(&mut context);
    let op = OperationBuilder::new("dialect.op1", loc).build(&mut context).unwrap();

    let inherent_value = AttributeRef::parse(&mut context, "1 : i32").unwrap();
    let discardable_value = AttributeRef::parse(&mut context, "2 : i32").unwrap();
    op.set_inherent_attribute(&mut context, "x", inherent_value);
    op.set_discardable_attribute(&mut context, "x", discardable_value);

    assert_eq!(op.inherent_attribute(&context, "x"), Some(inherent_value));
    assert_eq!(
        op.discardable_attribute(&context, "x"),
        Some(discardable_value)
    );
    assert!(op.has_inherent_attribute(&context, "x"));
    assert_eq!(op.num_attributes(&context), 2);

    let replacement = AttributeRef::parse(&mut context, "3 : i32").unwrap();
    op.set_discardable_attribute(&mut context, "x", replacement);
    assert_eq!(op.inherent_attribute(&context, "x"), Some(inherent_value));
    assert_eq!(op.discardable_attribute(&context, "x"), Some(replacement));

    assert!(op.remove_discardable_attribute(&mut context, "x"));
    assert!(!op.remove_discardable_attribute(&mut context, "x"));
    assert_eq!(op.inherent_attribute(&context, "x"), Some(inherent_value));
    assert_eq!(op.discardable_attribute(&context, "x"), None);
    assert_eq!(op.attribute(&context, "x"), Some(inherent_value));
}

#[test]
fn discardable_attribute_listing() {
    let mut context = Context::new(None, false);
    context.set_allow_unregistered_dialects(true);
    let loc = LocationRef::new_unknown(&mut context);
    let op = OperationBuilder::new("dialect.op1", loc).build(&mut context).unwrap();
    let a = AttributeRef::parse(&mut context, "unit").unwrap();
    op.set_discardable_attribute(&mut context, "first", a);
    let b = AttributeRef::parse(&mut context, "7 : i64").unwrap();
    op.set_discardable_attribute(&mut context, "second", b);
    assert_eq!(op.num_discardable_attributes(&context), 2);
    let named = op.discardable_attribute_at(&context, 0);
    assert_eq!(named.name().value(&context), "first");
    assert_eq!(named.attribute(), a);
    let named2 = op.attribute_at(&context, 1);
    assert_eq!(named2.name().value(&context), "second");
    assert_eq!(named2.attribute(), b);
    assert_eq!(op.remove_attribute(&mut context, "second"), true);
    assert_eq!(op.remove_attribute(&mut context, "second"), false);
}

#[test]
fn insert_operation_after_reference() {
    let mut context = Context::new(None, false);
    context.set_allow_unregistered_dialects(true);
    let module = OperationRef::parse(&mut context, "module {}", "test.mlir").unwrap();
    let region = module.region(&context, 0);
    let block = region.first_block(&context).unwrap();
    let loc = LocationRef::new_unknown(&mut context);
    let op1 = OperationBuilder::new("dialect.op1", loc).build(&mut context).unwrap();
    let op3 = OperationBuilder::new("dialect.op3", loc).build(&mut context).unwrap();
    block.append_operation(&mut context, op1);
    block.append_operation(&mut context, op3);
    let op2 = OperationBuilder::new("dialect.op2", loc).build(&mut context).unwrap();
    block.insert_operation_after(&mut context, op1, op2);
    let first = block.first_operation(&context).unwrap();
    assert_eq!(first, op1);
    let second = first.next_in_parent_block(&context).unwrap();
    assert_eq!(second, op2);
    let third = second.next_in_parent_block(&context).unwrap();
    assert_eq!(third, op3);
}

#[test]
fn set_value_type() {
    let mut context = Context::new(None, false);
    context.set_allow_unregistered_dialects(true);
    let loc = LocationRef::new_unknown(&mut context);
    let i32_type = TypeRef::parse(&mut context, "i32").unwrap();
    let i64_type = TypeRef::parse(&mut context, "i64").unwrap();
    let producer = OperationBuilder::new("dialect.p", loc)
        .add_results(&vec![i32_type])
        .build(&mut context)
        .unwrap();
    let v = producer.result(&context, 0);
    assert_eq!(v.get_type(&context), i32_type);
    v.set_type(&mut context, i64_type);
    assert_eq!(v.get_type(&context), i64_type);
}

#[test]
fn test_success_true() {
    let result = LogicalResult::success(true);
    assert!(result.succeeded());
    assert!(!result.failed());
}

#[test]
fn test_success_false() {
    let result = LogicalResult::success(false);
    assert!(!result.succeeded());
    assert!(result.failed());
}

#[test]
fn test_failure_true() {
    let result = LogicalResult::failure(true);
    assert!(!result.succeeded());
    assert!(result.failed());
}

#[test]
fn test_failure_false() {
    let result = LogicalResult::failure(false);
    assert!(result.succeeded());
    assert!(!result.failed());
}

#[test]
fn create_destroy_pass_manager() {
    let _context = Context::new(None, false);
    let pass_manager = PassManager::new();
    pass_manager.destroy();
}

#[test]
fn add_pass() {
    let _context = Context::new(None, false);
    let mut pass_manager = PassManager::new();
    let pass = create_dce_pass();
    pass_manager.add_pass(Pass::from_kind(pass));
    pass_manager.destroy();
}

#[test]
fn run_pass() {
    let mut context = Context::new(None, false);
    let mut pass_manager = PassManager::new();
    pass_manager.add_pass(Pass::from_kind(create_dce_pass()));
    pass_manager.add_pass(Pass::from_kind(create_cse_pass()));
    pass_manager.add_pass(Pass::from_kind(create_canonicalization_pass()));
    let operation = OperationRef::parse(&mut context, "module {}", "").unwrap();
    let result = pass_manager.run(&context, operation);
    assert!(result.succeeded());
    pass_manager.destroy();
}

#[test]
fn move_between_positions() {
    let mut context = Context::new(None, false);
    context.set_allow_unregistered_dialects(true);
    let module = OperationRef::parse(&mut context, "module {}", "test.mlir").unwrap();
    let region = module.region(&context, 0);
    let block = region.first_block(&context).unwrap();
    let loc = LocationRef::new_unknown(&mut context);
    let op1 = OperationBuilder::new("dialect.op1", loc).build(&mut context).unwrap();
    let op2 = OperationBuilder::new("dialect.op2", loc).build(&mut context).unwrap();
    block.append_operation(&mut context, op1);
    block.append_operation(&mut context, op2);

    op1.move_after(&mut context, op2);
    let first = block.first_operation(&context).unwrap();
    assert_eq!(first, op2);
    assert_eq!(first.next_in_parent_block(&context).unwrap(), op1);

    op1.move_before(&mut context, op2);
    let first = block.first_operation(&context).unwrap();
    assert_eq!(first, op1);
    assert_eq!(first.next_in_parent_block(&context).unwrap(), op2);
}

#[test]
fn walk_order() {
    let mut context = Context::new(None, false);
    context.set_allow_unregistered_dialects(true);
    let module = OperationRef::parse(
        &mut context,
        "module {\n  \"dialect.op1\"() : () -> ()\n  \"dialect.op2\"() : () -> ()\n}\n",
        "test.mlir",
    )
    .unwrap();
    let visited = module.walk(&context);
    assert_eq!(visited.len(), 3);
    assert_eq!(visited[0], module);
    assert_eq!(visited[1].name(&context).value(&context), "dialect.op1");
    assert_eq!(visited[2].name(&context).value(&context), "dialect.op2");
}

#[test]
fn clone_region_free_operation() {
    let mut context = Context::new(None, false);
    context.set_allow_unregistered_dialects(true);
    let loc = LocationRef::new_unknown(&mut context);
    let i32_type = TypeRef::parse(&mut context, "i32").unwrap();
    let attr = AttributeRef::parse(&mut context, "7 : i32").unwrap();
    let named = attr.with_name(&mut context, "tag");
    let original = OperationBuilder::new("dialect.op1", loc)
        .add_results(&vec![i32_type])
        .add_attributes(&vec![named])
        .build(&mut context)
        .unwrap();
    let copy = original.clone_op(&mut context);
    assert_ne!(copy, original);
    assert!(copy.parent_block(&context).is_none());
    assert_eq!(
        copy.name(&context).value(&context),
        original.name(&context).value(&context)
    );
    assert_eq!(copy.num_results(&context), 1);
    assert_eq!(copy.attribute(&context, "tag"), Some(attr));
    assert_eq!(copy.to_text(&context), original.to_text(&context));
}
