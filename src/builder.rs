//! The walk over a syntax tree that turns productions into documentation
//! nodes, threading the global offset through every step.
use vstd::prelude::*;
use vstd::string::*;
use crate::description_node::{description_marker, description_view, explicit_view, LiquidDocDescriptionNode};
use crate::example_node::{example_view, LiquidDocExampleNode};
use crate::liquid_ast::{views, LiquidAST, LiquidNode, NodeView};
use crate::param_node::{param_shape, param_view, LiquidDocParamNode};
use crate::position::offset_of;
use crate::syntax::{Pair, Rule};
use crate::text::lemma_bytes_of_empty;
use crate::text_node::{after_prefix, text_view, TextNode};

verus! {

/// The production inside a documentation tag: a parameter with its parts,
/// or a tag whose text is all it holds.
pub open spec fn tag_shape(t: Pair, b: Seq<u8>) -> bool {
    match t.rule {
        Rule::ParamNode => param_shape(t, b),
        Rule::ExampleNode | Rule::DescriptionNode | Rule::PromptNode | Rule::FallbackNode => t.spans(b),
        _ => false,
    }
}

/// A production that may stand right below the root.
pub open spec fn item_shape(c: Pair, b: Seq<u8>) -> bool {
    &&& c.spans(b)
    &&& match c.rule {
        Rule::ImplicitDescription => c.inner@.len() >= 1 && c.inner@[0].spans(b)
            && c.inner@[0].within(&c),
        Rule::LiquidDocNode => c.inner@.len() >= 1 && tag_shape(c.inner@[0], b),
        Rule::TextNode | Rule::EOI => true,
        _ => false,
    }
}

/// A production the builder knows how to visit: the root over such
/// productions, or one of them.
pub open spec fn visit_shape(p: Pair, b: Seq<u8>) -> bool {
    if p.rule == Rule::Document {
        &&& p.spans(b)
        &&& forall|i: int| 0 <= i < p.inner@.len() ==> item_shape(#[trigger] p.inner@[i], b)
    } else {
        item_shape(p, b)
    }
}

/// Whether a production below the root yields a node: structural ones and
/// unsupported tags do not, nor a description or text that is empty.
pub open spec fn emits(c: Pair, b: Seq<u8>) -> bool {
    match c.rule {
        Rule::ImplicitDescription => c.inner@[0].start < c.inner@[0].end,
        Rule::LiquidDocNode => {
            let t = c.inner@[0];
            match t.rule {
                Rule::ParamNode | Rule::ExampleNode => true,
                Rule::DescriptionNode => after_prefix(b, t.start as int, t.end as int, description_marker()) < t.end,
                _ => false,
            }
        },
        Rule::TextNode => c.start < c.end,
        _ => false,
    }
}

/// The node that a production below the root yields.
pub open spec fn node_view_of(c: Pair, b: Seq<u8>, off: int) -> NodeView {
    match c.rule {
        Rule::ImplicitDescription => NodeView::Description(
            description_view(b, c.inner@[0].start as int, c.inner@[0].end as int, c.start as int,
                c.end as int, off, true),
        ),
        Rule::LiquidDocNode => {
            let t = c.inner@[0];
            match t.rule {
                Rule::ParamNode => NodeView::Param(param_view(t, b, off)),
                Rule::ExampleNode => NodeView::Example(example_view(b, t.start as int, t.end as int, off)),
                _ => NodeView::Description(explicit_view(b, t.start as int, t.end as int, off)),
            }
        },
        _ => NodeView::Text(text_view(b, c.start as int, c.end as int, c.start as int, c.end as int, off)),
    }
}

/// The nodes that a run of productions below the root yields, in order.
pub open spec fn collect(kids: Seq<Pair>, b: Seq<u8>, off: int) -> Seq<NodeView>
    decreases kids.len(),
{
    if kids.len() == 0 {
        seq![]
    } else {
        let r = collect(kids.drop_last(), b, off);
        if emits(kids.last(), b) {
            r.push(node_view_of(kids.last(), b, off))
        } else {
            r
        }
    }
}

/// The nodes that visiting `p` yields.
pub open spec fn visit_result(p: Pair, b: Seq<u8>, off: int) -> Seq<NodeView> {
    if p.rule == Rule::Document {
        collect(p.inner@, b, off)
    } else {
        collect(seq![p], b, off)
    }
}

proof fn lemma_collect_one(p: Pair, b: Seq<u8>, off: int)
    ensures
        collect(seq![p], b, off) == (if emits(p, b) {
            seq![node_view_of(p, b, off)]
        } else {
            Seq::<NodeView>::empty()
        }),
{
    assert(seq![p].drop_last() =~= Seq::<Pair>::empty());
    reveal_with_fuel(collect, 2);
    assert(Seq::<NodeView>::empty().push(node_view_of(p, b, off)) =~= seq![node_view_of(p, b, off)]);
}

proof fn lemma_collect_step(kids: Seq<Pair>, i: int, b: Seq<u8>, off: int)
    requires
        0 <= i < kids.len(),
    ensures
        collect(kids.take(i + 1), b, off) == collect(kids.take(i), b, off) + collect(seq![kids[i]], b, off),
{
    let k = kids.take(i + 1);
    assert(k.drop_last() =~= kids.take(i));
    assert(k.last() == kids[i]);
    lemma_collect_one(kids[i], b, off);
    let prev = collect(kids.take(i), b, off);
    assert(prev.push(node_view_of(kids[i], b, off)) =~= prev + seq![node_view_of(kids[i], b, off)]);
    assert(prev =~= prev + Seq::<NodeView>::empty());
}

proof fn lemma_views_push(nodes: Seq<LiquidNode>, n: LiquidNode)
    ensures
        views(nodes.push(n)) == views(nodes).push(n@),
{
    assert(views(nodes.push(n)) =~= views(nodes).push(n@));
}

fn append(ast: &mut LiquidAST, node: LiquidNode)
    ensures
        views(final(ast).nodes@) == views(old(ast).nodes@).push(node@),
{
    proof {
        lemma_views_push(ast.nodes@, node);
    }
    ast.add_node(node);
}

/// Visits `pair` and appends, in source order, the nodes it yields. The
/// root is walked child by child; a rule the builder does not know cannot
/// reach it, since `visit_shape` leaves it out.
pub fn visit(ast: &mut LiquidAST, input: &str, pair: &Pair, offset: Option<usize>)
    requires
        visit_shape(*pair, input.spec_bytes()),
        input.spec_bytes().len() + offset_of(offset) <= usize::MAX,
    ensures
        views(final(ast).nodes@) == views(old(ast).nodes@) + visit_result(*pair, input.spec_bytes(), offset_of(offset)),
    decreases
        if pair.rule == Rule::Document { 1int } else { 0int },
{
    let ghost b = input.spec_bytes();
    let ghost off = offset_of(offset);
    let ghost start = views(ast.nodes@);
    proof {
        lemma_collect_one(*pair, b, off);
    }
    match pair.rule {
        Rule::Document => {
            let mut i: usize = 0;
            while i < pair.inner.len()
                invariant
                    visit_shape(*pair, b),
                    pair.rule == Rule::Document,
                    b == input.spec_bytes(),
                    off == offset_of(offset),
                    b.len() + off <= usize::MAX,
                    i <= pair.inner@.len(),
                    views(ast.nodes@) == start + collect(pair.inner@.take(i as int), b, off),
                decreases pair.inner@.len() - i,
            {
                let ghost before = views(ast.nodes@);
                let child = &pair.inner[i];
                proof {
                    assert(item_shape(pair.inner@[i as int], b));
                }
                visit(ast, input, child, offset);
                proof {
                    lemma_collect_step(pair.inner@, i as int, b, off);
                    let prev = collect(pair.inner@.take(i as int), b, off);
                    assert(before + collect(seq![*child], b, off) =~= start + (prev + collect(seq![*child], b, off)));
                }
                i += 1;
            }
            assert(pair.inner@.take(pair.inner@.len() as int) =~= pair.inner@);
        },
        Rule::ImplicitDescription => {
            let node = LiquidDocDescriptionNode::implicit(input, pair, offset);
            proof {
                lemma_bytes_of_empty(node.content.value@);
            }
            if !node.content.is_empty() {
                append(ast, LiquidNode::LiquidDocDescriptionNode(node));
            }
            assert(views(ast.nodes@) =~= start + visit_result(*pair, b, off));
        },
        Rule::LiquidDocNode => {
            let next = &pair.inner[0];
            match next.rule {
                Rule::ParamNode => {
                    let node = LiquidDocParamNode::from_pair(input, next, offset);
                    append(ast, LiquidNode::LiquidDocParamNode(node));
                },
                Rule::ExampleNode => {
                    let node = LiquidDocExampleNode::from_pair(input, next, offset);
                    append(ast, LiquidNode::LiquidDocExampleNode(node));
                },
                Rule::DescriptionNode => {
                    let node = LiquidDocDescriptionNode::explicit(input, next, offset);
                    proof {
                        lemma_bytes_of_empty(node.content.value@);
                    }
                    if !node.content.is_empty() {
                        append(ast, LiquidNode::LiquidDocDescriptionNode(node));
                    }
                },
                // Prompt and fallback tags are not supported yet: they yield
                // no node rather than a wrong one.
                _ => {},
            }
            assert(views(ast.nodes@) =~= start + visit_result(*pair, b, off));
        },
        Rule::TextNode => {
            let text_node = TextNode::from_pair(input, pair, pair, offset);
            proof {
                lemma_bytes_of_empty(text_node.value@);
            }
            if !text_node.is_empty() {
                append(ast, LiquidNode::TextNode(text_node));
            }
            assert(views(ast.nodes@) =~= start + visit_result(*pair, b, off));
        },
        // The end of input is structural and yields nothing.
        _ => {
            assert(views(ast.nodes@) =~= start + visit_result(*pair, b, off));
        },
    }
}

} // verus!
