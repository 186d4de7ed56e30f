//! The syntax tree that the grammar produces: rule kinds, byte spans and
//! ordered children.
use vstd::prelude::*;
use vstd::utf8::*;
use vstd::string::*;
use crate::text::{bytes_of, slice_string};

verus! {

/// The kinds of production in the doc-comment grammar.
#[derive(Debug, Clone, Copy, PartialEq, Eq, Structural)]
pub enum Rule {
    Document,
    ImplicitDescription,
    ImplicitDescriptionContent,
    LiquidDocNode,
    ParamNode,
    ParamType,
    ParamName,
    ParamDescription,
    ExampleNode,
    DescriptionNode,
    PromptNode,
    FallbackNode,
    TextNode,
    EOI,
}

/// One production of a syntax tree: its rule, the bytes `[start, end)` it
/// matched, and its children in source order.
#[derive(Debug)]
pub struct Pair {
    pub rule: Rule,
    pub start: usize,
    pub end: usize,
    pub inner: Vec<Pair>,
}

impl Pair {
    /// The span lies in `b` and both of its ends are character boundaries.
    pub open spec fn spans(&self, b: Seq<u8>) -> bool {
        &&& self.start <= self.end <= b.len()
        &&& is_char_boundary(b, self.start as int)
        &&& is_char_boundary(b, self.end as int)
    }

    /// The span lies within the span of `outer`.
    pub open spec fn within(&self, outer: &Pair) -> bool {
        outer.start <= self.start && self.end <= outer.end
    }

    /// The text this production matched in `input`.
    pub fn as_str(&self, input: &str) -> (r: String)
        requires
            self.spans(input.spec_bytes()),
        ensures
            bytes_of(r@) == input.spec_bytes().subrange(self.start as int, self.end as int),
    {
        slice_string(input, self.start, self.end)
    }
}

} // verus!
