//! The entry point: text in, documentation nodes out.
use vstd::prelude::*;
use vstd::string::*;
use crate::builder::{collect, visit, visit_result, visit_shape};
use crate::grammar::{accepts, is_document_tree, parse_document};
use crate::liquid_ast::{views, LiquidAST, NodeView};
use crate::position::offset_of;
use crate::syntax::{Pair, Rule};

verus! {

/// `nodes` are what the text `b` yields with offset `off`: the nodes that
/// its syntax tree yields.
pub open spec fn parsed(b: Seq<u8>, off: int, nodes: Seq<NodeView>) -> bool {
    exists|t: Pair| is_document_tree(t, b) && visit_shape(t, b) && nodes == collect(t.inner@, b, off)
}

/// The grammar engine of the doc-comment language.
pub struct LiquidParser;

impl LiquidParser {
    /// The syntax tree of `input`, or nothing where the grammar does not accept it.
    pub fn parse(input: &str) -> (r: Option<Pair>)
        ensures
            r is Some <==> accepts(input.spec_bytes()),
            r matches Some(t) ==> is_document_tree(t, input.spec_bytes()) && visit_shape(t, input.spec_bytes()),
    {
        parse_document(input)
    }
}

/// Parses `input` and builds its nodes, each position moved by the global
/// offset (none counts as zero). Gives nothing where the grammar does not
/// accept the text.
pub fn parse_liquid_string(input: &str, position_offset: Option<usize>) -> (r: Option<LiquidAST>)
    requires
        position_offset is Some ==> input.spec_bytes().len() + offset_of(position_offset) <= usize::MAX,
    ensures
        r is Some <==> accepts(input.spec_bytes()),
        r matches Some(ast) ==> parsed(input.spec_bytes(), offset_of(position_offset), views(ast.nodes@)),
{
    // Reading the length brings its bound into the proof.
    let _len = input.as_bytes().len();
    let tree = LiquidParser::parse(input)?;
    let mut ast = LiquidAST::new();
    visit(&mut ast, input, &tree, position_offset);
    proof {
        assert(views(ast.nodes@) =~= Seq::<NodeView>::empty() + visit_result(tree, input.spec_bytes(), offset_of(position_offset)));
        assert(tree.rule == Rule::Document);
    }
    Some(ast)
}

} // verus!
