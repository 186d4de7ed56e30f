//! Examples introduced by `@example`.
use vstd::prelude::*;
use vstd::string::*;
use crate::position::{offset_of, Position};
use crate::syntax::{Pair, Rule};
use crate::text_node::{after_prefix, text_view, TextNode, TextView};

verus! {

broadcast use vstd::string::group_string_axioms;

/// The marker `@example ` that introduces an example.
pub open spec fn example_marker() -> Seq<u8> {
    // `@`, `example`, a space
    seq![0x40u8, 0x65, 0x78, 0x61, 0x6d, 0x70, 0x6c, 0x65, 0x20]
}

fn example_marker_str() -> (r: &'static str)
    ensures
        r.spec_bytes() == example_marker(),
{
    let r = "@example ";
    proof {
        reveal_strlit("@example ");
    }
    assert(is_ascii(r));
    assert(r.spec_bytes() =~= example_marker());
    r
}

/// An example: its text without the marker, and where it stands.
#[derive(Debug, Clone)]
pub struct LiquidDocExampleNode {
    pub content: TextNode,
    pub is_inline: bool,
    pub position: Position,
    pub source: String,
    pub name: String,
}

/// What an example holds, with its strings as bytes.
pub struct ExampleView {
    pub content: TextView,
    pub is_inline: bool,
    pub start: int,
    pub end: int,
    pub source: Seq<u8>,
    pub name: Seq<char>,
}

impl View for LiquidDocExampleNode {
    type V = ExampleView;

    open spec fn view(&self) -> ExampleView {
        ExampleView {
            content: self.content@,
            is_inline: self.is_inline,
            start: self.position.start as int,
            end: self.position.end as int,
            source: crate::text::bytes_of(self.source@),
            name: self.name@,
        }
    }
}

/// The example made from a production that matched `[ps, pe)`: its content
/// is that text without the leading marker.
pub open spec fn example_view(b: Seq<u8>, ps: int, pe: int, off: int) -> ExampleView {
    ExampleView {
        content: text_view(b, after_prefix(b, ps, pe, example_marker()), pe, ps, pe, off),
        is_inline: true,
        start: ps + off,
        end: pe + off,
        source: b.subrange(ps, pe),
        name: "example"@,
    }
}

impl LiquidDocExampleNode {
    pub fn new(content: TextNode, is_inline: bool, position: Position, source: String) -> (r: LiquidDocExampleNode)
        ensures
            r.content == content,
            r.is_inline == is_inline,
            r.position == position,
            r.source == source,
            r.name@ == "example"@,
    {
        LiquidDocExampleNode { content, is_inline, position, source, name: "example".to_owned() }
    }

    /// The example that an `@example` production introduces.
    pub fn from_pair(input: &str, pair: &Pair, offset: Option<usize>) -> (r: LiquidDocExampleNode)
        requires
            pair.rule == Rule::ExampleNode,
            pair.spans(input.spec_bytes()),
            pair.end + offset_of(offset) <= usize::MAX,
        ensures
            r@ == example_view(input.spec_bytes(), pair.start as int, pair.end as int, offset_of(offset)),
    {
        let ghost b = input.spec_bytes();
        let mut content = TextNode::from_pair(input, pair, pair, offset);
        content.trim_content_start(example_marker_str());
        proof {
            let m = example_marker();
            let v = b.subrange(pair.start as int, pair.end as int);
            if m.len() <= v.len() {
                assert(v.subrange(0, m.len() as int) =~= b.subrange(pair.start as int, pair.start + m.len()));
                assert(v.subrange(m.len() as int, v.len() as int) =~= b.subrange(pair.start + m.len(), pair.end as int));
            }
        }
        LiquidDocExampleNode::new(content, true, Position::new(pair.start, pair.end, offset), pair.as_str(input))
    }
}

} // verus!
