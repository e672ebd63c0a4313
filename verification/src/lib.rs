//! A minimal query-language engine: a recursive-descent parser turns a
//! whitespace-tokenized query into a selection tree, and an executor walks
//! that tree against an object graph, serializing the result document in
//! selection order.

pub mod executor;
pub mod schema;
pub mod serialize;
pub mod graph;
pub mod parser;

pub use graph::Graph;
pub use graph::GraphNode;
pub use graph::GraphNodeProvider;
pub use graph::GraphNodeType;
pub use graph::GraphPrimitiveType;
pub use graph::ResolutionError;
pub use graph::ValueKind;
pub use schema::Schema;
pub use schema::SchemaPrimitiveType;
pub use schema::SchemaProvider;
pub use parser::ParseError;
pub use parser::Query;
pub use parser::QueryField;
