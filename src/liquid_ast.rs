//! The tree: documentation nodes in source order.
use vstd::prelude::*;
use crate::description_node::{DescriptionView, LiquidDocDescriptionNode};
use crate::example_node::{ExampleView, LiquidDocExampleNode};
use crate::param_node::{LiquidDocParamNode, ParamView};
use crate::text_node::{TextNode, TextView};

verus! {

/// One documentation node, told apart by its kind.
#[derive(Debug, Clone)]
pub enum LiquidNode {
    LiquidDocDescriptionNode(LiquidDocDescriptionNode),
    TextNode(TextNode),
    LiquidDocParamNode(LiquidDocParamNode),
    LiquidDocExampleNode(LiquidDocExampleNode),
}

/// What a node holds, by kind.
pub enum NodeView {
    Description(DescriptionView),
    Text(TextView),
    Param(ParamView),
    Example(ExampleView),
}

impl View for LiquidNode {
    type V = NodeView;

    open spec fn view(&self) -> NodeView {
        match self {
            LiquidNode::LiquidDocDescriptionNode(d) => NodeView::Description(d@),
            LiquidNode::TextNode(t) => NodeView::Text(t@),
            LiquidNode::LiquidDocParamNode(p) => NodeView::Param(p@),
            LiquidNode::LiquidDocExampleNode(e) => NodeView::Example(e@),
        }
    }
}

/// The views of a sequence of nodes.
pub open spec fn views(nodes: Seq<LiquidNode>) -> Seq<NodeView> {
    nodes.map_values(|n: LiquidNode| n@)
}

fn copy_text(t: &TextNode) -> (r: TextNode)
    ensures
        r == *t,
{
    TextNode { value: t.value.clone(), position: t.position, source: t.source.clone() }
}

fn copy_opt_text(t: &Option<TextNode>) -> (r: Option<TextNode>)
    ensures
        r == *t,
{
    match t {
        Some(t) => Some(copy_text(t)),
        None => None,
    }
}

fn copy_node(n: &LiquidNode) -> (r: LiquidNode)
    ensures
        r == *n,
{
    match n {
        LiquidNode::LiquidDocDescriptionNode(d) => LiquidNode::LiquidDocDescriptionNode(
            LiquidDocDescriptionNode {
                content: copy_text(&d.content),
                is_implicit: d.is_implicit,
                is_inline: d.is_inline,
                position: d.position,
                source: d.source.clone(),
                name: d.name.clone(),
            },
        ),
        LiquidNode::TextNode(t) => LiquidNode::TextNode(copy_text(t)),
        LiquidNode::LiquidDocParamNode(p) => LiquidNode::LiquidDocParamNode(
            LiquidDocParamNode {
                name: p.name.clone(),
                position: p.position,
                source: p.source.clone(),
                required: p.required,
                param_type: copy_opt_text(&p.param_type),
                param_name: copy_text(&p.param_name),
                param_description: copy_opt_text(&p.param_description),
            },
        ),
        LiquidNode::LiquidDocExampleNode(e) => LiquidNode::LiquidDocExampleNode(
            LiquidDocExampleNode {
                content: copy_text(&e.content),
                is_inline: e.is_inline,
                position: e.position,
                source: e.source.clone(),
                name: e.name.clone(),
            },
        ),
    }
}

impl LiquidNode {
    /// The text node that this node is.
    pub fn as_text_node_unsafe(&self) -> (r: &TextNode)
        requires
            self is TextNode,
        ensures
            *r == self->TextNode_0,
    {
        match self {
            LiquidNode::TextNode(t) => t,
            _ => vstd::pervasive::unreached(),
        }
    }
}

/// The nodes of a document, in source order.
#[derive(Debug, Clone)]
pub struct LiquidAST {
    pub nodes: Vec<LiquidNode>,
}

impl LiquidAST {
    pub fn new() -> (r: LiquidAST)
        ensures
            r.nodes@.len() == 0,
    {
        LiquidAST { nodes: Vec::new() }
    }

    /// Appends `node` after the nodes already there.
    pub fn add_node(&mut self, node: LiquidNode)
        ensures
            final(self).nodes@ == old(self).nodes@.push(node),
    {
        self.nodes.push(node);
    }

    /// A copy of the first node.
    pub fn head(&self) -> (r: LiquidNode)
        requires
            self.nodes@.len() > 0,
        ensures
            r == self.nodes@[0],
    {
        copy_node(&self.nodes[0])
    }

    pub fn len(&self) -> (r: usize)
        ensures
            r == self.nodes@.len(),
    {
        self.nodes.len()
    }
}

} // verus!
