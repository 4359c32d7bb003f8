//! Locations: construction, interning equality and printed forms.

use mlir_ir::Context;
use mlir_ir::LocationRef;

#[test]
fn new_file_line_col() {
    let mut context = Context::new(None, false);
    let location = LocationRef::new_file_line_col(&mut context, "file", 1, 2);
    assert_eq!(location.to_text(&context), "loc(\"file\":1:2)");
}

#[test]
fn new_call_site() {
    let mut context = Context::new(None, false);
    let callee = LocationRef::new_file_line_col(&mut context, "callee", 1, 2);
    let caller = LocationRef::new_file_line_col(&mut context, "caller", 3, 4);
    let location = LocationRef::new_call_site(&mut context, callee, caller);
    assert_eq!(
        location.to_text(&context),
        "loc(callsite(\"callee\":1:2 at \"caller\":3:4))"
    );
}

#[test]
fn new_name() {
    let mut context = Context::new(None, false);
    let child = LocationRef::new_file_line_col(&mut context, "child", 1, 2);
    let location = LocationRef::new_name(&mut context, "name", Some(child));
    assert_eq!(location.to_text(&context), "loc(\"name\"(\"child\":1:2))");
}

#[test]
fn new_unknown() {
    let mut context = Context::new(None, false);
    let location = LocationRef::new_unknown(&mut context);
    assert_eq!(location.to_text(&context), "loc(unknown)");
}

#[test]
fn compare_locations() {
    let mut context = Context::new(None, false);
    let location1a = LocationRef::new_file_line_col(&mut context, "file", 1, 2);
    let location1b = LocationRef::new_file_line_col(&mut context, "file", 1, 2);
    let location2 = LocationRef::new_unknown(&mut context);
    assert_eq!(location1a, location1a);
    assert_eq!(location1b, location1b);
    assert_eq!(location1a, location1b);
    assert_ne!(location1a, location2);
    assert_ne!(location1b, location2);
    assert_eq!(location2, location2);
}

#[test]
fn new_fused() {
    let mut context = Context::new(None, false);
    let l1 = LocationRef::new_file_line_col(&mut context, "a", 1, 2);
    let l2 = LocationRef::new_file_line_col(&mut context, "b", 3, 4);
    let metadata = mlir_ir::AttributeRef::parse(&mut context, "unit").unwrap();
    let fused = LocationRef::new_fused(&mut context, &vec![l1, l2], metadata);
    assert_eq!(
        fused.to_text(&context),
        "loc(fused<unit>[\"a\":1:2, \"b\":3:4])"
    );
}
