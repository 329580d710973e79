//! A call graph of source functions: its data model in two interchangeable
//! representations, the passes that build it from symbol records, the
//! analyses over it, and its export formats.
pub mod analyzer;
pub mod call_graph;
pub mod chains;
pub mod cycles;
pub mod digraph;
pub mod export;
pub mod graph;
pub mod parser;
pub mod pet_graph;
pub mod petgraph_storage;
pub mod ranking;
pub mod seq_util;
pub mod signature;
pub mod text;
pub mod text_map;
pub mod types;

pub use analyzer::CodeGraphAnalyzer;
pub use graph::CodeGraph;
pub use parser::CodeParser;
pub use pet_graph::PetCodeGraph;
pub use pet_graph::PetGraphCodeGraph;
pub use petgraph_storage::PetGraphStorage;
pub use petgraph_storage::PetGraphStorageManager;
pub use types::CallRelation;
pub use types::FunctionInfo;
pub use types::GraphNode;
pub use types::GraphRelation;
