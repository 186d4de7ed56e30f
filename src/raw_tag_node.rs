//! A nested block whose body is itself documentation.
use vstd::prelude::*;
use crate::liquid_ast::LiquidNode;
use crate::position::Position;

verus! {

/// A raw block: its name and body, the nodes its body holds, the
/// whitespace around it and its delimiters, and where it stands.
#[derive(Debug)]
pub struct LiquidRawTagNode {
    pub name: String,
    pub body: String,
    pub children: Vec<LiquidNode>,
    pub whitespace_start: String,
    pub whitespace_end: String,
    pub delimiter_whitespace_start: String,
    pub delimiter_whitespace_end: String,
    pub loc_start: usize,
    pub loc_end: usize,
    pub position: Position,
    pub source: String,
    pub block_start_loc_start: usize,
    pub block_start_loc_end: usize,
    pub block_end_loc_start: usize,
    pub block_end_loc_end: usize,
}

} // verus!
