//! Structured documentation metadata (descriptions, parameters, examples)
//! extracted from doc-comment annotations, with byte-exact source positions.

pub mod builder;
pub mod description_node;
pub mod example_node;
pub mod grammar;
pub mod laws;
pub mod liquid_ast;
pub mod param_node;
pub mod parser;
pub mod position;
pub mod raw_tag_node;
pub mod scan;
pub mod syntax;
pub mod text;
pub mod text_node;

pub use builder::visit;
pub use description_node::LiquidDocDescriptionNode;
pub use example_node::LiquidDocExampleNode;
pub use liquid_ast::{LiquidAST, LiquidNode};
pub use param_node::{LiquidDocParamNameNode, LiquidDocParamNode};
pub use parser::{parse_liquid_string, LiquidParser};
pub use position::Position;
pub use raw_tag_node::LiquidRawTagNode;
pub use syntax::{Pair, Rule};
pub use text_node::TextNode;
