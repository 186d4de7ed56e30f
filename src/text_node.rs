//! The smallest unit of the tree: a slice of source text and its span.
use vstd::prelude::*;
use vstd::string::*;
use vstd::utf8::*;
use crate::position::{offset_of, Position};
use crate::scan::{CLOSE_BRACE, CLOSE_BRACKET, OPEN_BRACE, OPEN_BRACKET};
use crate::syntax::Pair;
use crate::text::{bytes_of, is_ascii_byte, lemma_ascii_boundary, lemma_concat_boundary, slice_string, starts_with};

verus! {

broadcast use vstd::utf8::group_utf8_lib;

/// A slice of source text, where it stands, and the text of the production
/// it was taken from.
#[derive(Debug, Clone)]
pub struct TextNode {
    pub value: String,
    pub position: Position,
    pub source: String,
}

/// A brace or a square bracket.
pub open spec fn is_bracket(c: u8) -> bool {
    is_opening(c) || is_closing(c)
}

/// A byte that bracket stripping removes from the front: `{` or `[`.
pub open spec fn is_opening(c: u8) -> bool {
    c == OPEN_BRACE || c == OPEN_BRACKET
}

/// A byte that bracket stripping removes from the back: `}` or `]`.
pub open spec fn is_closing(c: u8) -> bool {
    c == CLOSE_BRACE || c == CLOSE_BRACKET
}

/// Where `[s, e)` begins once leading `{` and `[` are removed.
pub open spec fn bracket_lead(b: Seq<u8>, s: int, e: int) -> int
    decreases e - s,
{
    if s >= e {
        s
    } else if is_opening(b[s]) {
        bracket_lead(b, s + 1, e)
    } else {
        s
    }
}

/// Where `[s, e)` ends once trailing `}` and `]` are removed.
pub open spec fn bracket_trail(b: Seq<u8>, s: int, e: int) -> int
    decreases e - s,
{
    if e <= s {
        e
    } else if is_closing(b[e - 1]) {
        bracket_trail(b, s, e - 1)
    } else {
        e
    }
}

/// What a text node holds: its value's bytes, its span, and its source's bytes.
pub struct TextView {
    pub value: Seq<u8>,
    pub start: int,
    pub end: int,
    pub source: Seq<u8>,
}

/// The text `[s, e)` of `b`, at that span moved by `off`, taken from the
/// production that matched `[ss, se)`.
pub open spec fn text_view(b: Seq<u8>, s: int, e: int, ss: int, se: int, off: int) -> TextView {
    TextView { value: b.subrange(s, e), start: s + off, end: e + off, source: b.subrange(ss, se) }
}

/// Where `[s, e)` begins once `p` is cut from its front, if it is there.
pub open spec fn after_prefix(b: Seq<u8>, s: int, e: int, p: Seq<u8>) -> int {
    if p.len() <= e - s && b.subrange(s, s + p.len()) == p {
        s + p.len()
    } else {
        s
    }
}

impl View for TextNode {
    type V = TextView;

    open spec fn view(&self) -> TextView {
        TextView {
            value: bytes_of(self.value@),
            start: self.position.start as int,
            end: self.position.end as int,
            source: bytes_of(self.source@),
        }
    }
}

impl TextNode {
    /// The span is as long as the value's bytes.
    pub open spec fn wf(&self) -> bool {
        self.position.start + bytes_of(self.value@).len() == self.position.end
    }

    pub fn new(value: String, position: Position, source: String) -> (r: TextNode)
        ensures
            r.value == value,
            r.position == position,
            r.source == source,
    {
        TextNode { value, position, source }
    }

    /// The text that `pair` matched, as a node whose source is what `within` matched.
    pub fn from_pair(input: &str, pair: &Pair, within: &Pair, offset: Option<usize>) -> (r: TextNode)
        requires
            pair.spans(input.spec_bytes()),
            within.spans(input.spec_bytes()),
            pair.within(within),
            within.end + offset_of(offset) <= usize::MAX,
        ensures
            r@ == text_view(input.spec_bytes(), pair.start as int, pair.end as int,
                within.start as int, within.end as int, offset_of(offset)),
            r.wf(),
    {
        TextNode::new(
            pair.as_str(input),
            Position::new(pair.start, pair.end, offset),
            within.as_str(input),
        )
    }

    /// Like `from_pair`, with `{` and `[` removed from the front and `}` and
    /// `]` from the back, and the span narrowed by exactly the bytes removed.
    pub fn without_brackets(input: &str, pair: &Pair, within: &Pair, offset: Option<usize>) -> (r: TextNode)
        requires
            pair.spans(input.spec_bytes()),
            within.spans(input.spec_bytes()),
            pair.within(within),
            within.end + offset_of(offset) <= usize::MAX,
        ensures
            ({
                let b = input.spec_bytes();
                let lead = bracket_lead(b, pair.start as int, pair.end as int);
                r@ == text_view(b, lead, bracket_trail(b, lead, pair.end as int),
                    within.start as int, within.end as int, offset_of(offset))
            }),
            r.wf(),
    {
        let ghost b = input.spec_bytes();
        let bytes = input.as_bytes();
        let mut s = pair.start;
        while s < pair.end && is_opening_byte(bytes[s])
            invariant
                bytes@ == b,
                pair.start <= s <= pair.end <= b.len(),
                bracket_lead(b, pair.start as int, pair.end as int)
                    == bracket_lead(b, s as int, pair.end as int),
                s > pair.start ==> is_ascii_byte(b[s - 1]),
            decreases pair.end - s,
        {
            s += 1;
        }
        let mut e = pair.end;
        while e > s && is_closing_byte(bytes[e - 1])
            invariant
                bytes@ == b,
                s <= e <= pair.end <= b.len(),
                bracket_trail(b, s as int, pair.end as int) == bracket_trail(b, s as int, e as int),
                e < pair.end ==> is_ascii_byte(b[e as int]),
            decreases e - s,
        {
            e -= 1;
        }
        proof {
            encode_utf8_valid_utf8(input@);
            if s > pair.start {
                lemma_ascii_boundary(b, s as int);
            }
            if e < pair.end {
                lemma_ascii_boundary(b, e as int);
            }
        }
        let value = slice_string(input, s, e);
        let mut position = Position::new(pair.start, pair.end, offset);
        position.shift_start(s - pair.start);
        position.shift_end_down(pair.end - e);
        TextNode::new(value, position, within.as_str(input))
    }

    /// Removes `to_strip` from the front of the value, if it is there, and
    /// moves the start of the span past it.
    pub fn trim_content_start(&mut self, to_strip: &str)
        requires
            old(self).wf(),
        ensures
            final(self).wf(),
            final(self).source == old(self).source,
            final(self).position.end == old(self).position.end,
            ({
                let v = bytes_of(old(self).value@);
                let p = to_strip.spec_bytes();
                if p.len() <= v.len() && v.subrange(0, p.len() as int) == p {
                    &&& bytes_of(final(self).value@) == v.subrange(p.len() as int, v.len() as int)
                    &&& final(self).position.start == old(self).position.start + p.len()
                } else {
                    &&& final(self).value == old(self).value
                    &&& final(self).position == old(self).position
                }
            }),
    {
        if starts_with(self.value.as_str(), to_strip) {
            let ghost v = bytes_of(self.value@);
            let ghost p = to_strip.spec_bytes();
            let n = to_strip.len();
            proof {
                encode_utf8_valid_utf8(self.value@);
                encode_utf8_valid_utf8(to_strip@);
                assert(v =~= p + v.subrange(n as int, v.len() as int));
                lemma_concat_boundary(p, v.subrange(n as int, v.len() as int));
                is_char_boundary_start_end_of_seq(v);
            }
            let rest = slice_string(self.value.as_str(), n, self.value.as_str().len());
            self.value = rest;
            self.position.shift_start(n);
        }
    }

    pub fn as_str(&self) -> (r: &str)
        ensures
            r@ == self.value@,
    {
        self.value.as_str()
    }

    pub fn is_empty(&self) -> (r: bool)
        ensures
            r == (self.value@.len() == 0),
    {
        self.value.as_str().is_empty()
    }
}

fn is_opening_byte(c: u8) -> (r: bool)
    ensures
        r == is_opening(c),
        r ==> is_ascii_byte(c),
{
    c == OPEN_BRACE || c == OPEN_BRACKET
}

fn is_closing_byte(c: u8) -> (r: bool)
    ensures
        r == is_closing(c),
        r ==> is_ascii_byte(c),
{
    c == CLOSE_BRACE || c == CLOSE_BRACKET
}

} // verus!
