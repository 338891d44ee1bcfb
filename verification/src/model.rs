//! The term graph and what it is made of.

pub mod anchor;
pub mod ast;
pub mod ast_laws;
pub mod edge;
pub mod etype;
pub mod function_declaration;
pub mod node;
pub mod table;
pub mod term_graph;
pub mod term_graph_laws;
