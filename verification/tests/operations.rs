//! Operations: parsing, printing, the tree, attributes and the builder.

use mlir_ir::AttributeRef;
use mlir_ir::Context;
use mlir_ir::LocationRef;
use mlir_ir::OperationBuilder;
use mlir_ir::OperationRef;
use mlir_ir::TypeRef;

#[test]
fn operation_parse() {
    let operation_source = "module {\n}\n";
    let mut context = Context::new(None, false);
    let operation = OperationRef::parse(&mut context, operation_source, "test.mlir").unwrap();
    assert_eq!(operation.to_text(&context), operation_source);
}

#[test]
fn name() {
    let operation_source = "module {}";
    let mut context = Context::new(None, false);
    let operation = OperationRef::parse(&mut context, operation_source, "test.mlir").unwrap();
    assert_eq!(operation.name(&context).value(&context), "builtin.module");
}

#[test]
fn location() {
    let operation_source = "module {}";
    let mut context = Context::new(None, false);
    let operation = OperationRef::parse(&mut context, operation_source, "test.mlir").unwrap();
    let expected = LocationRef::new_file_line_col(&mut context, "test.mlir", 1, 1);
    assert_eq!(operation.location(&context), expected);
}

#[test]
fn parent_operation() {
    let operation_source = "\nmodule {\n    \"dialect.op\"() : () -> ()\n}\n";
    let mut context = Context::new(None, false);
    context.set_allow_unregistered_dialects(true);
    let operation = OperationRef::parse(&mut context, operation_source, "test.mlir").unwrap();
    assert!(operation.parent_operation(&context).is_none());
    let region = operation.region(&context, 0);
    let block = region.first_block(&context).unwrap();
    let first_op = block.first_operation(&context).unwrap();
    assert_eq!(first_op.parent_operation(&context).unwrap(), operation);
}

#[test]
fn parent_block() {
    let operation_source = "\nmodule {\n    \"dialect.op\"() : () -> ()\n}\n";
    let mut context = Context::new(None, false);
    context.set_allow_unregistered_dialects(true);
    let operation = OperationRef::parse(&mut context, operation_source, "test.mlir").unwrap();
    assert!(operation.parent_block(&context).is_none());
    let region = operation.region(&context, 0);
    let first_block = region.first_block(&context).unwrap();
    let first_nested_op = first_block.first_operation(&context).unwrap();
    assert_eq!(first_nested_op.parent_block(&context).unwrap(), first_block);
}

#[test]
fn remove_from_parent() {
    let operation_source = "\nmodule {\n    \"dialect.op\"() : () -> ()\n}\n";
    let resulting_operation = "module {\n}\n";
    let mut context = Context::new(None, false);
    context.set_allow_unregistered_dialects(true);
    let operation = OperationRef::parse(&mut context, operation_source, "test.mlir").unwrap();
    let region = operation.region(&context, 0);
    let block = region.first_block(&context).unwrap();
    let first_operation = block.first_operation(&context).unwrap();
    first_operation.remove_from_parent(&mut context);
    assert_eq!(operation.to_text(&context), resulting_operation);
}

#[test]
fn next_in_parent_block() {
    let operation_source =
        "\nmodule {\n    \"dialect.op1\"() : () -> ()\n    \"dialect.op2\"() : () -> ()\n}\n";
    let mut context = Context::new(None, false);
    context.set_allow_unregistered_dialects(true);
    let operation = OperationRef::parse(&mut context, operation_source, "test.mlir").unwrap();
    assert!(operation.next_in_parent_block(&context).is_none());
    let region = operation.region(&context, 0);
    let block = region.first_block(&context).unwrap();
    let first_op = block.first_operation(&context).unwrap();
    let second_op = first_op.next_in_parent_block(&context).unwrap();
    assert_eq!(second_op.name(&context).value(&context), "dialect.op2");
    assert!(second_op.next_in_parent_block(&context).is_none());
}

#[test]
fn num_operands() {
    let operation_source = "\nmodule {\n    %0:2 = \"dialect.op1\"() {\"attribute name\" = 42 : i32} : () -> (i1, i16)\n    \"dialect.op2\"(%0#0, %0#1) : (i1, i16) -> ()\n}\n";
    let mut context = Context::new(None, false);
    context.set_allow_unregistered_dialects(true);
    let operation = OperationRef::parse(&mut context, operation_source, "test.mlir").unwrap();
    let region = operation.region(&context, 0);
    let block = region.first_block(&context).unwrap();
    let first_op = block.first_operation(&context).unwrap();
    assert_eq!(first_op.num_operands(&context), 0);
    let second_op = first_op.next_in_parent_block(&context).unwrap();
    assert_eq!(second_op.num_operands(&context), 2);
}

#[test]
fn get_operands() {
    let operation_source = "\nmodule {\n    %0:2 = \"dialect.op1\"() {\"attribute name\" = 42 : i32} : () -> (i1, i16)\n    \"dialect.op2\"(%0#0, %0#1) : (i1, i16) -> ()\n}\n";
    let mut context = Context::new(None, false);
    context.set_allow_unregistered_dialects(true);
    let operation = OperationRef::parse(&mut context, operation_source, "test.mlir").unwrap();
    let region = operation.region(&context, 0);
    let block = region.first_block(&context).unwrap();
    let second_op = block
        .first_operation(&context)
        .unwrap()
        .next_in_parent_block(&context)
        .unwrap();
    let t0 = second_op.operand(&context, 0).get_type(&context);
    assert_eq!(t0.to_text(&context), "i1");
    let t1 = second_op.operand(&context, 1).get_type(&context);
    assert_eq!(t1.to_text(&context), "i16");
}

#[test]
#[should_panic]
fn get_operand_out_of_bounds() {
    let operation_source = "\nmodule {\n    %0:2 = \"dialect.op1\"() {\"attribute name\" = 42 : i32} : () -> (i1, i16)\n    \"dialect.op2\"(%0#0, %0#1) : (i1, i16) -> ()\n}\n";
    let mut context = Context::new(None, false);
    context.set_allow_unregistered_dialects(true);
    let operation = OperationRef::parse(&mut context, operation_source, "test.mlir").unwrap();
    let region = operation.region(&context, 0);
    let block = region.first_block(&context).unwrap();
    let second_op = block
        .first_operation(&context)
        .unwrap()
        .next_in_parent_block(&context)
        .unwrap();
    let _third_operand = second_op.operand(&context, 2);
}

#[test]
fn build() {
    let mut context = Context::new(None, false);
    context.set_allow_unregistered_dialects(true);
    let loc = LocationRef::new_unknown(&mut context);
    let attr = AttributeRef::parse(&mut context, "42 : i32").unwrap();
    let named = attr.with_name(&mut context, "attribute name");
    let i1 = TypeRef::parse(&mut context, "i1").unwrap();
    let i16 = TypeRef::parse(&mut context, "i16").unwrap();
    let op = OperationBuilder::new("dialect.op1", loc)
        .add_attributes(&vec![named])
        .add_results(&vec![i1, i16])
        .build(&mut context)
        .unwrap();
    assert_eq!(
        op.to_text(&context),
        "%0:2 = \"dialect.op1\"() {\"attribute name\" = 42 : i32} : () -> (i1, i16)\n"
    );
}

#[test]
fn build_unregistered_refused() {
    let mut context = Context::new(None, false);
    let loc = LocationRef::new_unknown(&mut context);
    let op = OperationBuilder::new("dialect.op1", loc).build(&mut context);
    assert!(op.is_none());
}

#[test]
fn build_registered_module() {
    let mut context = Context::new(None, false);
    let loc = LocationRef::new_unknown(&mut context);
    let op = OperationBuilder::new("builtin.module", loc).build(&mut context);
    assert!(op.is_some());
}

#[test]
fn verify_after_parse() {
    let mut context = Context::new(None, false);
    let operation = OperationRef::parse(&mut context, "module {}", "test.mlir").unwrap();
    assert!(operation.verify(&context));
}

#[test]
fn round_trip_nested() {
    let operation_source = "module {\n  \"dialect.op1\"() : () -> ()\n}\n";
    let mut context = Context::new(None, false);
    context.set_allow_unregistered_dialects(true);
    let operation = OperationRef::parse(&mut context, operation_source, "test.mlir").unwrap();
    let printed = operation.to_text(&context);
    assert_eq!(printed, operation_source);
    let reparsed = OperationRef::parse(&mut context, printed.as_str(), "test.mlir").unwrap();
    assert_eq!(reparsed.to_text(&context), printed);
}

#[test]
fn parse_rejects_malformed() {
    let mut context = Context::new(None, false);
    assert!(OperationRef::parse(&mut context, "not an operation", "test.mlir").is_none());
    assert!(OperationRef::parse(&mut context, "module {", "test.mlir").is_none());
    assert!(OperationRef::parse(&mut context, "", "test.mlir").is_none());
}

#[test]
fn parse_rejects_unregistered_without_tolerance() {
    let mut context = Context::new(None, false);
    let source = "\"dialect.op\"() : () -> ()";
    assert!(OperationRef::parse(&mut context, source, "test.mlir").is_none());
    context.set_allow_unregistered_dialects(true);
    assert!(OperationRef::parse(&mut context, source, "test.mlir").is_some());
}

#[test]
fn module_wrapper() {
    let mut context = Context::new(None, false);
    let loc = LocationRef::new_unknown(&mut context);
    let module = mlir_ir::ModuleRef::new(&mut context, loc);
    assert_eq!(
        module.as_operation().to_text(&context),
        "module {\n}\n"
    );

    let parsed = mlir_ir::ModuleRef::parse(&mut context, "module {}").unwrap();
    assert_eq!(
        parsed.as_operation().name(&context).value(&context),
        "builtin.module"
    );

    context.set_allow_unregistered_dialects(true);
    let other = OperationBuilder::new("dialect.op1", loc).build(&mut context).unwrap();
    assert!(mlir_ir::ModuleRef::from_operation(&context, other).is_none());
    let back = mlir_ir::ModuleRef::from_operation(&context, parsed.as_operation());
    assert_eq!(back, Some(parsed));
}
