//! What holds of every parse: it is deterministic, the global offset moves
//! every position and nothing else, no empty description or text is kept,
//! every text node is a slice of its source, and brackets around a
//! parameter name make it optional.
use vstd::prelude::*;
use crate::builder::{collect, emits, item_shape, node_view_of, visit_shape};
use crate::description_node::DescriptionView;
use crate::example_node::ExampleView;
use crate::grammar::{is_document_tree, is_item_tree, is_param_tree, param_layout, tag_kind, TagKind};
use crate::liquid_ast::NodeView;
use crate::param_node::{name_index, param_shape, param_view, ParamView};
use crate::parser::parsed;
use crate::scan::{CLOSE_BRACKET, OPEN_BRACKET};
use crate::syntax::Pair;
use crate::text_node::{bracket_lead, bracket_trail, is_bracket, TextView};

verus! {

/// Same rule, same span, as many children.
pub open spec fn same_span(p: Pair, q: Pair) -> bool {
    &&& p.rule == q.rule
    &&& p.start == q.start
    &&& p.end == q.end
    &&& p.inner@.len() == q.inner@.len()
}

/// Two productions below the root that agree in all the builder reads.
pub open spec fn same_shape(p: Pair, q: Pair) -> bool {
    &&& same_span(p, q)
    &&& p.inner@.len() > 0 ==> {
        &&& same_span(p.inner@[0], q.inner@[0])
        &&& forall|i: int| 0 <= i < p.inner@[0].inner@.len()
            ==> same_span(#[trigger] p.inner@[0].inner@[i], q.inner@[0].inner@[i])
    }
}

proof fn lemma_same_shape_node(p: Pair, q: Pair, b: Seq<u8>, off: int)
    requires
        same_shape(p, q),
        item_shape(p, b),
        item_shape(q, b),
    ensures
        emits(p, b) == emits(q, b),
        node_view_of(p, b, off) == node_view_of(q, b, off),
{
    if p.inner@.len() > 0 {
        let t = p.inner@[0];
        let u = q.inner@[0];
        if t.inner@.len() > 0 {
            assert(same_span(t.inner@[0], u.inner@[0]));
            let ni = name_index(t);
            assert(name_index(u) == ni);
            if 0 <= ni < t.inner@.len() {
                assert(same_span(t.inner@[ni], u.inner@[ni]));
            }
            if 0 <= ni + 1 < t.inner@.len() {
                assert(same_span(t.inner@[ni + 1], u.inner@[ni + 1]));
            }
            if t.rule == crate::syntax::Rule::ParamNode && p.rule == crate::syntax::Rule::LiquidDocNode {
                let pv = param_view(t, b, off);
                let qv = param_view(u, b, off);
                assert(pv.param_type == qv.param_type);
                assert(pv.param_name == qv.param_name);
                assert(pv.param_description == qv.param_description);
                assert(pv == qv);
            }
        }
    }
}

proof fn lemma_collect_same(k1: Seq<Pair>, k2: Seq<Pair>, b: Seq<u8>, off: int)
    requires
        k1.len() == k2.len(),
        forall|i: int| 0 <= i < k1.len() ==> same_shape(#[trigger] k1[i], k2[i]),
        forall|i: int| 0 <= i < k1.len() ==> item_shape(#[trigger] k1[i], b),
        forall|i: int| 0 <= i < k2.len() ==> item_shape(#[trigger] k2[i], b),
    ensures
        collect(k1, b, off) == collect(k2, b, off),
    decreases k1.len(),
{
    if k1.len() > 0 {
        let n = k1.len() - 1;
        assert(same_shape(k1[n], k2[n]));
        assert(item_shape(k1[n], b));
        assert(item_shape(k2[n], b));
        lemma_same_shape_node(k1.last(), k2.last(), b, off);
        assert forall|i: int| 0 <= i < k1.drop_last().len() implies same_shape(
            #[trigger] k1.drop_last()[i],
            k2.drop_last()[i],
        ) by {
            assert(same_shape(k1[i], k2[i]));
        }
        assert forall|i: int| 0 <= i < k1.drop_last().len() implies item_shape(#[trigger] k1.drop_last()[i], b) by {
            assert(item_shape(k1[i], b));
        }
        assert forall|i: int| 0 <= i < k2.drop_last().len() implies item_shape(#[trigger] k2.drop_last()[i], b) by {
            assert(item_shape(k2[i], b));
        }
        lemma_collect_same(k1.drop_last(), k2.drop_last(), b, off);
    }
}

proof fn lemma_trees_same_shape(t1: Pair, t2: Pair, b: Seq<u8>)
    requires
        is_document_tree(t1, b),
        is_document_tree(t2, b),
    ensures
        t1.inner@.len() == t2.inner@.len(),
        forall|i: int| 0 <= i < t1.inner@.len() ==> same_shape(#[trigger] t1.inner@[i], t2.inner@[i]),
{
    let lines = crate::grammar::tag_lines(b, 0);
    assert forall|i: int| 0 <= i < t1.inner@.len() implies same_shape(#[trigger] t1.inner@[i], t2.inner@[i]) by {
        if 1 <= i <= lines.len() {
            let j = i - 1;
            let a = crate::grammar::item_start(b, lines[j]);
            let e = crate::grammar::item_end(b, lines[j]);
            let c1 = t1.inner@[j + 1];
            let c2 = t2.inner@[j + 1];
            assert(is_item_tree(c1, b, a, e));
            assert(is_item_tree(c2, b, a, e));
            if tag_kind(b, a, e) == TagKind::Param {
                let l = param_layout(b, a, e)->0;
                assert(is_param_tree(c1.inner@[0], l, a, e));
                assert(is_param_tree(c2.inner@[0], l, a, e));
                assert forall|k: int| 0 <= k < c1.inner@[0].inner@.len() implies same_span(
                    #[trigger] c1.inner@[0].inner@[k],
                    c2.inner@[0].inner@[k],
                ) by {
                    if l.ty is Some && k == 0 {
                    }
                }
            }
        }
    }
}

/// Parsing is deterministic: two results for the same text and offset hold
/// the same nodes.
pub proof fn lemma_parse_deterministic(b: Seq<u8>, off: int, n1: Seq<NodeView>, n2: Seq<NodeView>)
    requires
        parsed(b, off, n1),
        parsed(b, off, n2),
    ensures
        n1 == n2,
{
    let t1 = choose|t: Pair| is_document_tree(t, b) && visit_shape(t, b) && n1 == collect(t.inner@, b, off);
    let t2 = choose|t: Pair| is_document_tree(t, b) && visit_shape(t, b) && n2 == collect(t.inner@, b, off);
    lemma_trees_same_shape(t1, t2, b);
    lemma_collect_same(t1.inner@, t2.inner@, b, off);
}

/// A text node moved right by `k`.
pub open spec fn shift_text(t: TextView, k: int) -> TextView {
    TextView { value: t.value, start: t.start + k, end: t.end + k, source: t.source }
}

pub open spec fn shift_opt_text(t: Option<TextView>, k: int) -> Option<TextView> {
    match t {
        Some(t) => Some(shift_text(t, k)),
        None => None,
    }
}

/// A node, and every text node inside it, moved right by `k`.
pub open spec fn shift_node(v: NodeView, k: int) -> NodeView {
    match v {
        NodeView::Description(d) => NodeView::Description(DescriptionView {
            content: shift_text(d.content, k),
            is_implicit: d.is_implicit,
            is_inline: d.is_inline,
            start: d.start + k,
            end: d.end + k,
            source: d.source,
            name: d.name,
        }),
        NodeView::Text(t) => NodeView::Text(shift_text(t, k)),
        NodeView::Param(p) => NodeView::Param(ParamView {
            name: p.name,
            start: p.start + k,
            end: p.end + k,
            source: p.source,
            required: p.required,
            param_type: shift_opt_text(p.param_type, k),
            param_name: shift_text(p.param_name, k),
            param_description: shift_opt_text(p.param_description, k),
        }),
        NodeView::Example(e) => NodeView::Example(ExampleView {
            content: shift_text(e.content, k),
            is_inline: e.is_inline,
            start: e.start + k,
            end: e.end + k,
            source: e.source,
            name: e.name,
        }),
    }
}

proof fn lemma_node_view_shift(c: Pair, b: Seq<u8>, k: int)
    requires
        item_shape(c, b),
    ensures
        node_view_of(c, b, k) == shift_node(node_view_of(c, b, 0), k),
{
}

proof fn lemma_collect_shift(kids: Seq<Pair>, b: Seq<u8>, k: int)
    requires
        forall|i: int| 0 <= i < kids.len() ==> item_shape(#[trigger] kids[i], b),
    ensures
        collect(kids, b, k) == collect(kids, b, 0).map_values(|v: NodeView| shift_node(v, k)),
    decreases kids.len(),
{
    if kids.len() > 0 {
        let rest = kids.drop_last();
        assert forall|i: int| 0 <= i < rest.len() implies item_shape(#[trigger] rest[i], b) by {
            assert(item_shape(kids[i], b));
        }
        lemma_collect_shift(rest, b, k);
        assert(item_shape(kids[kids.len() - 1], b));
        lemma_node_view_shift(kids.last(), b, k);
        let r0 = collect(rest, b, 0);
        let f = |v: NodeView| shift_node(v, k);
        assert(r0.push(node_view_of(kids.last(), b, 0)).map_values(f) =~= r0.map_values(f).push(
            shift_node(node_view_of(kids.last(), b, 0), k),
        ));
    }
}

/// The global offset moves every position by exactly that offset and changes
/// nothing else: the nodes parsed with offset `k` are those parsed with no
/// offset, each shifted right by `k`.
pub proof fn lemma_offset_law(b: Seq<u8>, k: int, n0: Seq<NodeView>, nk: Seq<NodeView>)
    requires
        parsed(b, 0, n0),
        parsed(b, k, nk),
    ensures
        nk.len() == n0.len(),
        forall|i: int| 0 <= i < nk.len() ==> #[trigger] nk[i] == shift_node(n0[i], k),
{
    let t0 = choose|t: Pair| is_document_tree(t, b) && visit_shape(t, b) && n0 == collect(t.inner@, b, 0);
    let tk = choose|t: Pair| is_document_tree(t, b) && visit_shape(t, b) && nk == collect(t.inner@, b, k);
    lemma_trees_same_shape(t0, tk, b);
    lemma_collect_same(t0.inner@, tk.inner@, b, 0);
    lemma_collect_shift(tk.inner@, b, k);
}

/// A node whose text is not empty; parameters and examples always count.
pub open spec fn keeps_content(v: NodeView) -> bool {
    match v {
        NodeView::Description(d) => d.content.value.len() > 0,
        NodeView::Text(t) => t.value.len() > 0,
        _ => true,
    }
}

proof fn lemma_collect_keeps_content(kids: Seq<Pair>, b: Seq<u8>, off: int)
    requires
        forall|i: int| 0 <= i < kids.len() ==> item_shape(#[trigger] kids[i], b),
    ensures
        forall|i: int| 0 <= i < collect(kids, b, off).len() ==> keeps_content(#[trigger] collect(kids, b, off)[i]),
    decreases kids.len(),
{
    if kids.len() > 0 {
        let rest = kids.drop_last();
        assert forall|i: int| 0 <= i < rest.len() implies item_shape(#[trigger] rest[i], b) by {
            assert(item_shape(kids[i], b));
        }
        lemma_collect_keeps_content(rest, b, off);
        assert(item_shape(kids[kids.len() - 1], b));
        let c = kids.last();
        let r = collect(rest, b, off);
        let full = collect(kids, b, off);
        if emits(c, b) {
            assert(keeps_content(node_view_of(c, b, off)));
            assert(full == r.push(node_view_of(c, b, off)));
        } else {
            assert(full == r);
        }
        assert forall|i: int| 0 <= i < full.len() implies keeps_content(#[trigger] full[i]) by {
            if i < r.len() {
                assert(full[i] == r[i]);
            }
        }
    }
}

/// No empty description or text is kept: every description and every text
/// node that a parse yields holds at least one byte.
pub proof fn lemma_no_empty_nodes(b: Seq<u8>, off: int, nodes: Seq<NodeView>)
    requires
        parsed(b, off, nodes),
    ensures
        forall|i: int| 0 <= i < nodes.len() ==> keeps_content(#[trigger] nodes[i]),
{
    let t = choose|t: Pair| is_document_tree(t, b) && visit_shape(t, b) && nodes == collect(t.inner@, b, off);
    lemma_collect_keeps_content(t.inner@, b, off);
}

/// A parameter name written `[name]`, with no bracket inside, is optional
/// and is stored as `name`; a name with no bracket at all is required and
/// is stored as written.
pub proof fn lemma_param_name_brackets(p: Pair, b: Seq<u8>, off: int)
    requires
        param_shape(p, b),
    ensures
        ({
            let np = p.inner@[name_index(p)];
            let s = np.start as int;
            let e = np.end as int;
            let v = param_view(p, b, off);
            &&& (s + 2 < e && b[s] == OPEN_BRACKET && b[e - 1] == CLOSE_BRACKET
                && (forall|j: int| s < j < e - 1 ==> !is_bracket(#[trigger] b[j])))
                ==> !v.required && v.param_name.value == b.subrange(s + 1, e - 1)
            &&& (forall|j: int| s <= j < e ==> !is_bracket(#[trigger] b[j]))
                ==> v.required && v.param_name.value == b.subrange(s, e)
        }),
{
    let np = p.inner@[name_index(p)];
    let s = np.start as int;
    let e = np.end as int;
    if s + 2 < e && b[s] == OPEN_BRACKET && b[e - 1] == CLOSE_BRACKET
        && (forall|j: int| s < j < e - 1 ==> !is_bracket(#[trigger] b[j])) {
        assert(!is_bracket(b[s + 1]));
        assert(!is_bracket(b[e - 2]));
        reveal_with_fuel(bracket_lead, 2);
        reveal_with_fuel(bracket_trail, 2);
        assert(bracket_lead(b, s, e) == s + 1);
        assert(bracket_trail(b, s + 1, e) == e - 1);
    }
    if forall|j: int| s <= j < e ==> !is_bracket(#[trigger] b[j]) {
        if s < e {
            assert(!is_bracket(b[s]));
            assert(!is_bracket(b[e - 1]));
        }
        assert(bracket_lead(b, s, e) == s);
        assert(bracket_trail(b, s, e) == e);
    }
}

/// A text node's value is a slice of its source, and its span is exactly as
/// long as its value's bytes.
pub open spec fn text_from_source(t: TextView) -> bool {
    &&& t.end - t.start == t.value.len()
    &&& exists|k: int|
        0 <= k && k + t.value.len() <= t.source.len() && #[trigger] t.source.subrange(k, k + t.value.len())
            == t.value
}

pub open spec fn opt_text_from_source(t: Option<TextView>) -> bool {
    match t {
        Some(t) => text_from_source(t),
        None => true,
    }
}

/// Every text node inside a node comes from its source.
pub open spec fn texts_from_source(v: NodeView) -> bool {
    match v {
        NodeView::Description(d) => text_from_source(d.content),
        NodeView::Text(t) => text_from_source(t),
        NodeView::Param(p) => opt_text_from_source(p.param_type) && text_from_source(p.param_name)
            && opt_text_from_source(p.param_description),
        NodeView::Example(e) => text_from_source(e.content),
    }
}

proof fn lemma_text_view_from_source(b: Seq<u8>, s: int, e: int, ss: int, se: int, off: int)
    requires
        0 <= ss <= s <= e <= se <= b.len(),
    ensures
        text_from_source(crate::text_node::text_view(b, s, e, ss, se, off)),
{
    let t = crate::text_node::text_view(b, s, e, ss, se, off);
    assert(t.source.subrange(s - ss, s - ss + t.value.len()) =~= t.value);
}

proof fn lemma_bracket_bounds(b: Seq<u8>, s: int, e: int)
    requires
        s <= e,
    ensures
        s <= bracket_lead(b, s, e) <= e,
        bracket_lead(b, s, e) <= bracket_trail(b, bracket_lead(b, s, e), e) <= e,
    decreases e - s,
{
    if s < e && crate::text_node::is_opening(b[s]) {
        lemma_bracket_bounds(b, s + 1, e);
    } else {
        lemma_trail_bounds(b, s, e);
    }
}

proof fn lemma_trail_bounds(b: Seq<u8>, s: int, e: int)
    requires
        s <= e,
    ensures
        s <= bracket_trail(b, s, e) <= e,
    decreases e - s,
{
    if s < e && crate::text_node::is_closing(b[e - 1]) {
        lemma_trail_bounds(b, s, e - 1);
    }
}

proof fn lemma_node_texts_from_source(c: Pair, b: Seq<u8>, off: int)
    requires
        item_shape(c, b),
    ensures
        texts_from_source(node_view_of(c, b, off)),
{
    match c.rule {
        crate::syntax::Rule::ImplicitDescription => {
            let t = c.inner@[0];
            lemma_text_view_from_source(b, t.start as int, t.end as int, c.start as int, c.end as int, off);
        },
        crate::syntax::Rule::LiquidDocNode => {
            let t = c.inner@[0];
            let (s, e) = (t.start as int, t.end as int);
            match t.rule {
                crate::syntax::Rule::ParamNode => {
                    let ni = name_index(t);
                    let np = t.inner@[ni];
                    assert(np.spans(b) && np.within(&t));
                    lemma_bracket_bounds(b, np.start as int, np.end as int);
                    let lead = bracket_lead(b, np.start as int, np.end as int);
                    lemma_text_view_from_source(b, lead, bracket_trail(b, lead, np.end as int), s, e, off);
                    if crate::param_node::has_type(t) {
                        let ty = t.inner@[0];
                        assert(ty.spans(b) && ty.within(&t));
                        lemma_bracket_bounds(b, ty.start as int, ty.end as int);
                        let tl = bracket_lead(b, ty.start as int, ty.end as int);
                        lemma_text_view_from_source(b, tl, bracket_trail(b, tl, ty.end as int), s, e, off);
                    }
                    if ni + 1 < t.inner@.len() {
                        let d = t.inner@[ni + 1];
                        assert(d.spans(b) && d.within(&t));
                        lemma_text_view_from_source(b, d.start as int, d.end as int, s, e, off);
                    }
                },
                crate::syntax::Rule::ExampleNode => {
                    let a = crate::text_node::after_prefix(b, s, e, crate::example_node::example_marker());
                    lemma_text_view_from_source(b, a, e, s, e, off);
                },
                _ => {
                    let a = crate::text_node::after_prefix(b, s, e, crate::description_node::description_marker());
                    lemma_text_view_from_source(b, a, e, s, e, off);
                },
            }
        },
        _ => {
            lemma_text_view_from_source(b, c.start as int, c.end as int, c.start as int, c.end as int, off);
        },
    }
}

proof fn lemma_collect_texts_from_source(kids: Seq<Pair>, b: Seq<u8>, off: int)
    requires
        forall|i: int| 0 <= i < kids.len() ==> item_shape(#[trigger] kids[i], b),
    ensures
        forall|i: int| 0 <= i < collect(kids, b, off).len() ==> texts_from_source(#[trigger] collect(kids, b, off)[i]),
    decreases kids.len(),
{
    if kids.len() > 0 {
        let rest = kids.drop_last();
        assert forall|i: int| 0 <= i < rest.len() implies item_shape(#[trigger] rest[i], b) by {
            assert(item_shape(kids[i], b));
        }
        lemma_collect_texts_from_source(rest, b, off);
        assert(item_shape(kids[kids.len() - 1], b));
        let c = kids.last();
        let r = collect(rest, b, off);
        let full = collect(kids, b, off);
        if emits(c, b) {
            lemma_node_texts_from_source(c, b, off);
            assert(full == r.push(node_view_of(c, b, off)));
        } else {
            assert(full == r);
        }
        assert forall|i: int| 0 <= i < full.len() implies texts_from_source(#[trigger] full[i]) by {
            if i < r.len() {
                assert(full[i] == r[i]);
            }
        }
    }
}

/// Every text node that a parse yields is a slice of its source, and its
/// span is exactly as long as its value's bytes.
pub proof fn lemma_texts_come_from_source(b: Seq<u8>, off: int, nodes: Seq<NodeView>)
    requires
        parsed(b, off, nodes),
    ensures
        forall|i: int| 0 <= i < nodes.len() ==> texts_from_source(#[trigger] nodes[i]),
{
    let t = choose|t: Pair| is_document_tree(t, b) && visit_shape(t, b) && nodes == collect(t.inner@, b, off);
    lemma_collect_texts_from_source(t.inner@, b, off);
}

} // verus!
