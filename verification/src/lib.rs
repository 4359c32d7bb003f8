//! A safe, verified model of an MLIR-style intermediate representation:
//! a context that interns types, attributes, identifiers and locations; a
//! dialect registry; the operation/region/block tree with values and
//! use-def edges; textual printing and parsing; and pass scheduling.

pub mod attributes;
pub mod block;
pub mod context;
pub mod dialect;
pub mod dialect_handle;
pub mod dialect_registry;
pub mod identifier;
pub mod laws;
pub mod location;
pub mod module;
pub mod operation;
pub mod opoperand;
pub mod parser;
pub mod pass;
pub mod text;
pub mod region;
pub mod types;
pub mod value;

pub use attributes::AttrData;
pub use attributes::AttributeRef;
pub use attributes::BoolAttributeRef;
pub use attributes::DenseBoolAttributeRef;
pub use attributes::DenseElementsAttributeRef;
pub use attributes::DenseI32AttributeRef;
pub use attributes::DenseStringAttributeRef;
pub use attributes::FloatAttributeRef;
pub use attributes::IntegerAttributeRef;
pub use attributes::NamedAttribute;
pub use attributes::StringAttributeRef;
pub use block::BlockData;
pub use block::BlockRef;
pub use context::Context;
pub use dialect::DialectRef;
pub use dialect_handle::DialectHandle;
pub use dialect_registry::DialectRegistry;
pub use identifier::IdentifierRef;
pub use location::LocationData;
pub use location::LocationRef;
pub use module::ModuleRef;
pub use operation::OpData;
pub use operation::OperationBuilder;
pub use operation::OperationRef;
pub use opoperand::OpOperandRef;
pub use pass::LogicalResult;
pub use pass::Pass;
pub use pass::PassKind;
pub use pass::PassManager;
pub use region::RegionData;
pub use region::RegionRef;
pub use types::FloatKind;
pub use types::FloatTypeRef;
pub use types::IntegerTypeRef;
pub use types::NoneTypeRef;
pub use types::Signedness;
pub use types::TypeData;
pub use types::TypeRef;
pub use value::ValueRef;
