//! Parameters introduced by `@param`: an optional `{type}`, a name that
//! brackets make optional, and an optional description.
use vstd::prelude::*;
use vstd::string::*;
use crate::position::{offset_of, Position};
use crate::scan::{CLOSE_BRACKET, OPEN_BRACKET};
use crate::syntax::{Pair, Rule};
use crate::text_node::{bracket_lead, bracket_trail, text_view, TextNode, TextView};

verus! {

/// A parameter: its optional type, its name, its optional description,
/// whether it is required, and where it stands.
#[derive(Debug, Clone)]
pub struct LiquidDocParamNode {
    pub name: String,
    pub position: Position,
    pub source: String,
    pub required: bool,
    pub param_type: Option<TextNode>,
    pub param_name: TextNode,
    pub param_description: Option<TextNode>,
}

/// What a parameter holds, with its strings as bytes.
pub struct ParamView {
    pub name: Seq<char>,
    pub start: int,
    pub end: int,
    pub source: Seq<u8>,
    pub required: bool,
    pub param_type: Option<TextView>,
    pub param_name: TextView,
    pub param_description: Option<TextView>,
}

pub open spec fn opt_text_view(t: Option<TextNode>) -> Option<TextView> {
    match t {
        Some(t) => Some(t@),
        None => None,
    }
}

impl View for LiquidDocParamNode {
    type V = ParamView;

    open spec fn view(&self) -> ParamView {
        ParamView {
            name: self.name@,
            start: self.position.start as int,
            end: self.position.end as int,
            source: crate::text::bytes_of(self.source@),
            required: self.required,
            param_type: opt_text_view(self.param_type),
            param_name: self.param_name@,
            param_description: opt_text_view(self.param_description),
        }
    }
}

/// A name written `[name]`: it starts with `[` and ends with `]`.
pub open spec fn is_bracketed(b: Seq<u8>, s: int, e: int) -> bool {
    s < e && b[s] == OPEN_BRACKET && b[e - 1] == CLOSE_BRACKET
}

/// The text of `c` without its brackets, as a node taken from `p`.
pub open spec fn bracketless_view(b: Seq<u8>, c: Pair, p: Pair, off: int) -> TextView {
    let lead = bracket_lead(b, c.start as int, c.end as int);
    text_view(b, lead, bracket_trail(b, lead, c.end as int), p.start as int, p.end as int, off)
}

/// Whether the first child of a parameter is its type.
pub open spec fn has_type(p: Pair) -> bool {
    p.inner@[0].rule == Rule::ParamType
}

/// Where the name stands among the children of a parameter.
pub open spec fn name_index(p: Pair) -> int {
    if has_type(p) { 1 } else { 0 }
}

/// The children of a parameter: its name, after its type if it has one,
/// and each child within it.
pub open spec fn param_shape(p: Pair, b: Seq<u8>) -> bool {
    &&& p.rule == Rule::ParamNode
    &&& p.spans(b)
    &&& name_index(p) < p.inner@.len()
    &&& forall|i: int| 0 <= i < p.inner@.len() ==> (#[trigger] p.inner@[i]).spans(b) && p.inner@[i].within(&p)
}

/// The parameter made from the production `p`.
pub open spec fn param_view(p: Pair, b: Seq<u8>, off: int) -> ParamView {
    let np = p.inner@[name_index(p)];
    let di = name_index(p) + 1;
    ParamView {
        name: "param"@,
        start: p.start + off,
        end: p.end + off,
        source: b.subrange(p.start as int, p.end as int),
        required: !is_bracketed(b, np.start as int, np.end as int),
        param_type: if has_type(p) { Some(bracketless_view(b, p.inner@[0], p, off)) } else { None },
        param_name: bracketless_view(b, np, p, off),
        param_description: if di < p.inner@.len() && p.inner@[di].start < p.inner@[di].end {
            Some(text_view(b, p.inner@[di].start as int, p.inner@[di].end as int, p.start as int, p.end as int, off))
        } else {
            None
        },
    }
}

impl LiquidDocParamNode {
    pub fn new(
        position: Position,
        source: String,
        param_type: Option<TextNode>,
        param_name: TextNode,
        param_description: Option<TextNode>,
        required: bool,
    ) -> (r: LiquidDocParamNode)
        ensures
            r.name@ == "param"@,
            r.position == position,
            r.source == source,
            r.param_type == param_type,
            r.param_name == param_name,
            r.param_description == param_description,
            r.required == required,
    {
        LiquidDocParamNode {
            name: "param".to_owned(),
            position,
            source,
            required,
            param_type,
            param_name,
            param_description,
        }
    }

    /// The parameter that a `@param` production introduces. The name is
    /// required unless it is written in brackets; the stored name never
    /// holds them.
    pub fn from_pair(input: &str, pair: &Pair, offset: Option<usize>) -> (r: LiquidDocParamNode)
        requires
            param_shape(*pair, input.spec_bytes()),
            pair.end + offset_of(offset) <= usize::MAX,
        ensures
            r@ == param_view(*pair, input.spec_bytes(), offset_of(offset)),
    {
        let bytes = input.as_bytes();
        let first = &pair.inner[0];
        let (param_type, ni) = if first.rule == Rule::ParamType {
            (Some(TextNode::without_brackets(input, first, pair, offset)), 1usize)
        } else {
            (None, 0usize)
        };
        let name = &pair.inner[ni];
        let required = !(name.start < name.end && bytes[name.start] == OPEN_BRACKET
            && bytes[name.end - 1] == CLOSE_BRACKET);
        let param_name = TextNode::without_brackets(input, name, pair, offset);
        let param_description = if ni + 1 < pair.inner.len() && pair.inner[ni + 1].start < pair.inner[ni + 1].end {
            Some(TextNode::from_pair(input, &pair.inner[ni + 1], pair, offset))
        } else {
            None
        };
        LiquidDocParamNode::new(
            Position::new(pair.start, pair.end, offset),
            pair.as_str(input),
            param_type,
            param_name,
            param_description,
            required,
        )
    }
}

/// A parameter name on its own: the text as written, where it stands, and
/// whether it is required.
#[derive(Debug, Clone)]
pub struct LiquidDocParamNameNode {
    pub content: TextNode,
    pub loc_start: usize,
    pub loc_end: usize,
    pub source: String,
    pub required: bool,
}

impl LiquidDocParamNameNode {
    pub fn new(input: &str, pair: &Pair) -> (r: LiquidDocParamNameNode)
        requires
            pair.rule == Rule::ParamName,
            pair.spans(input.spec_bytes()),
        ensures
            r.content@ == text_view(input.spec_bytes(), pair.start as int, pair.end as int,
                pair.start as int, pair.end as int, 0),
            r.loc_start == pair.start,
            r.loc_end == pair.end,
            crate::text::bytes_of(r.source@) == input.spec_bytes().subrange(pair.start as int, pair.end as int),
            r.required == !is_bracketed(input.spec_bytes(), pair.start as int, pair.end as int),
    {
        let bytes = input.as_bytes();
        let required = !(pair.start < pair.end && bytes[pair.start] == OPEN_BRACKET
            && bytes[pair.end - 1] == CLOSE_BRACKET);
        LiquidDocParamNameNode {
            content: TextNode::from_pair(input, pair, pair, None),
            loc_start: pair.start,
            loc_end: pair.end,
            source: pair.as_str(input),
            required,
        }
    }
}

} // verus!
