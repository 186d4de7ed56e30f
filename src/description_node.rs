//! Descriptions: free leading text, or text introduced by `@description`.
use vstd::prelude::*;
use vstd::string::*;
use crate::position::{offset_of, Position};
use crate::syntax::{Pair, Rule};
use crate::text_node::{after_prefix, text_view, TextNode, TextView};

verus! {

broadcast use vstd::string::group_string_axioms;

/// The marker `@description ` that introduces an explicit description.
pub open spec fn description_marker() -> Seq<u8> {
    // `@`, `description`, a space
    seq![0x40u8, 0x64, 0x65, 0x73, 0x63, 0x72, 0x69, 0x70, 0x74, 0x69, 0x6f, 0x6e, 0x20]
}

fn description_marker_str() -> (r: &'static str)
    ensures
        r.spec_bytes() == description_marker(),
{
    let r = "@description ";
    proof {
        reveal_strlit("@description ");
    }
    assert(is_ascii(r));
    assert(r.spec_bytes() =~= description_marker());
    r
}

/// A description: its text, whether it was free leading text (implicit)
/// rather than introduced by `@description`, and where it stands.
#[derive(Debug, Clone)]
pub struct LiquidDocDescriptionNode {
    pub content: TextNode,
    pub is_implicit: bool,
    pub is_inline: bool,
    pub position: Position,
    pub source: String,
    pub name: String,
}

/// What a description holds, with its strings as bytes.
pub struct DescriptionView {
    pub content: TextView,
    pub is_implicit: bool,
    pub is_inline: bool,
    pub start: int,
    pub end: int,
    pub source: Seq<u8>,
    pub name: Seq<char>,
}

impl View for LiquidDocDescriptionNode {
    type V = DescriptionView;

    open spec fn view(&self) -> DescriptionView {
        DescriptionView {
            content: self.content@,
            is_implicit: self.is_implicit,
            is_inline: self.is_inline,
            start: self.position.start as int,
            end: self.position.end as int,
            source: crate::text::bytes_of(self.source@),
            name: self.name@,
        }
    }
}

/// The description whose content is `[cs, ce)`, made from the production
/// that matched `[ps, pe)`.
pub open spec fn description_view(
    b: Seq<u8>,
    cs: int,
    ce: int,
    ps: int,
    pe: int,
    off: int,
    implicit: bool,
) -> DescriptionView {
    DescriptionView {
        content: text_view(b, cs, ce, ps, pe, off),
        is_implicit: implicit,
        is_inline: true,
        start: ps + off,
        end: pe + off,
        source: b.subrange(ps, pe),
        name: "description"@,
    }
}

/// The explicit description made from a production that matched `[ps, pe)`:
/// its content is that text without the leading marker.
pub open spec fn explicit_view(b: Seq<u8>, ps: int, pe: int, off: int) -> DescriptionView {
    description_view(b, after_prefix(b, ps, pe, description_marker()), pe, ps, pe, off, false)
}

impl LiquidDocDescriptionNode {
    pub fn new(content: TextNode, is_implicit: bool, is_inline: bool, position: Position, source: String) -> (r: LiquidDocDescriptionNode)
        ensures
            r.content == content,
            r.is_implicit == is_implicit,
            r.is_inline == is_inline,
            r.position == position,
            r.source == source,
            r.name@ == "description"@,
    {
        LiquidDocDescriptionNode {
            content,
            is_implicit,
            is_inline,
            position,
            source,
            name: "description".to_owned(),
        }
    }

    /// The description that an `@description` production introduces.
    pub fn explicit(input: &str, pair: &Pair, offset: Option<usize>) -> (r: LiquidDocDescriptionNode)
        requires
            pair.rule == Rule::DescriptionNode,
            pair.spans(input.spec_bytes()),
            pair.end + offset_of(offset) <= usize::MAX,
        ensures
            r@ == explicit_view(input.spec_bytes(), pair.start as int, pair.end as int, offset_of(offset)),
    {
        let ghost b = input.spec_bytes();
        let mut content = TextNode::from_pair(input, pair, pair, offset);
        let marker = description_marker_str();
        content.trim_content_start(marker);
        proof {
            let m = description_marker();
            let v = b.subrange(pair.start as int, pair.end as int);
            if m.len() <= v.len() {
                assert(v.subrange(0, m.len() as int) =~= b.subrange(pair.start as int, pair.start + m.len()));
                assert(v.subrange(m.len() as int, v.len() as int) =~= b.subrange(pair.start + m.len(), pair.end as int));
            }
        }
        LiquidDocDescriptionNode::new(
            content,
            false,
            true,
            Position::new(pair.start, pair.end, offset),
            pair.as_str(input),
        )
    }

    /// The description that leading free text forms: its content is the one
    /// production inside.
    pub fn implicit(input: &str, pair: &Pair, offset: Option<usize>) -> (r: LiquidDocDescriptionNode)
        requires
            pair.rule == Rule::ImplicitDescription,
            pair.spans(input.spec_bytes()),
            pair.inner@.len() >= 1,
            pair.inner@[0].spans(input.spec_bytes()),
            pair.inner@[0].within(pair),
            pair.end + offset_of(offset) <= usize::MAX,
        ensures
            r@ == description_view(input.spec_bytes(), pair.inner@[0].start as int,
                pair.inner@[0].end as int, pair.start as int, pair.end as int, offset_of(offset), true),
    {
        let content = TextNode::from_pair(input, &pair.inner[0], pair, offset);
        LiquidDocDescriptionNode::new(
            content,
            true,
            true,
            Position::new(pair.start, pair.end, offset),
            pair.as_str(input),
        )
    }
}

} // verus!
