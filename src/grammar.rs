//! The doc-comment grammar, as a function from bytes to a syntax tree.
//!
//! A document is free leading text (the implicit description) followed by
//! tags. A tag starts a line, after optional blanks, with `@`; it runs to the
//! next such line or to the end. `@param`, `@example`, `@description`,
//! `@prompt` and `@fallback` are documentation tags; any other `@` line is
//! plain text. A parameter reads `@param {type} name - description`, where
//! the type and the description may be left out and `[name]` marks the name
//! as optional. A `@param` tag that does not read so makes the document fail.
use vstd::prelude::*;
use vstd::string::*;
use vstd::utf8::*;
use crate::builder::{item_shape, visit_shape};
use crate::param_node::param_shape;
use crate::scan::{
    is_space, lemma_scan, lemma_trim_end, scan, scan_while, trim_end, trim_space_end, ByteClass,
    AT, CLOSE_BRACE, CLOSE_BRACKET, DASH, LF, OPEN_BRACE, OPEN_BRACKET,
};
use crate::syntax::{Pair, Rule};
use crate::text::{is_ascii_byte, lemma_ascii_boundary};

verus! {

broadcast use vstd::string::group_string_axioms;

/// Whether a line begins at `i`.
pub open spec fn at_line_start(b: Seq<u8>, i: int) -> bool {
    i == 0 || (0 < i <= b.len() && b[i - 1] == LF)
}

/// A line that begins at `i` and holds a tag: blanks, then `@`.
pub open spec fn is_tag_line(b: Seq<u8>, i: int) -> bool {
    &&& 0 <= i < b.len()
    &&& at_line_start(b, i)
    &&& scan(b, i, b.len() as int, ByteClass::Blank) < b.len()
    &&& b[scan(b, i, b.len() as int, ByteClass::Blank)] == AT
}

/// The first tag line at or after `i`, or the end of the text.
pub open spec fn next_tag_line(b: Seq<u8>, i: int) -> int
    decreases b.len() - i,
{
    if i >= b.len() {
        b.len() as int
    } else if is_tag_line(b, i) {
        i
    } else {
        next_tag_line(b, i + 1)
    }
}

/// The tag lines at or after `i`, in order.
pub open spec fn tag_lines(b: Seq<u8>, i: int) -> Seq<int>
    decreases b.len() - i,
{
    if i >= b.len() {
        seq![]
    } else if is_tag_line(b, i) {
        seq![i] + tag_lines(b, i + 1)
    } else {
        tag_lines(b, i + 1)
    }
}

/// Where the tag of a tag line starts: at its `@`.
pub open spec fn item_start(b: Seq<u8>, line: int) -> int {
    scan(b, line, b.len() as int, ByteClass::Blank)
}

/// Where the tag of a tag line ends: at the next tag line, or the end.
pub open spec fn item_end(b: Seq<u8>, line: int) -> int {
    next_tag_line(b, line + 1)
}

/// The kinds of tag.
#[derive(Debug, Clone, Copy, PartialEq, Eq, Structural)]
pub enum TagKind {
    Param,
    Example,
    Description,
    Prompt,
    Fallback,
    Unknown,
}

/// The word after `@` that names a kind of tag.
pub open spec fn tag_word(k: TagKind) -> Seq<u8> {
    match k {
        TagKind::Param => seq![0x70u8, 0x61, 0x72, 0x61, 0x6d],  // param
        TagKind::Example => seq![0x65u8, 0x78, 0x61, 0x6d, 0x70, 0x6c, 0x65],  // example
        TagKind::Description => seq![0x64u8, 0x65, 0x73, 0x63, 0x72, 0x69, 0x70, 0x74, 0x69, 0x6f, 0x6e],  // description
        TagKind::Prompt => seq![0x70u8, 0x72, 0x6f, 0x6d, 0x70, 0x74],  // prompt
        TagKind::Fallback => seq![0x66u8, 0x61, 0x6c, 0x6c, 0x62, 0x61, 0x63, 0x6b],  // fallback
        TagKind::Unknown => seq![],
    }
}

/// After the `@` at `a` stands the word `w`, ended by a space or by `e`.
pub open spec fn keyword_at(b: Seq<u8>, a: int, e: int, w: Seq<u8>) -> bool {
    let k = a + 1 + w.len();
    &&& k <= e
    &&& b.subrange(a + 1, k) == w
    &&& (k == e || is_space(b[k]))
}

/// The kind of the tag `[a, e)`.
pub open spec fn tag_kind(b: Seq<u8>, a: int, e: int) -> TagKind {
    if keyword_at(b, a, e, tag_word(TagKind::Param)) {
        TagKind::Param
    } else if keyword_at(b, a, e, tag_word(TagKind::Example)) {
        TagKind::Example
    } else if keyword_at(b, a, e, tag_word(TagKind::Description)) {
        TagKind::Description
    } else if keyword_at(b, a, e, tag_word(TagKind::Prompt)) {
        TagKind::Prompt
    } else if keyword_at(b, a, e, tag_word(TagKind::Fallback)) {
        TagKind::Fallback
    } else {
        TagKind::Unknown
    }
}

/// The production that a documentation tag of kind `k` forms.
pub open spec fn tag_rule(k: TagKind) -> Rule {
    match k {
        TagKind::Param => Rule::ParamNode,
        TagKind::Example => Rule::ExampleNode,
        TagKind::Description => Rule::DescriptionNode,
        TagKind::Prompt => Rule::PromptNode,
        _ => Rule::FallbackNode,
    }
}

/// Where the parts of a parameter stand: its type with the braces, its
/// name with any brackets, and its description.
#[derive(Debug, Clone, Copy)]
pub struct ParamSpans {
    pub ty: Option<(usize, usize)>,
    pub name: (usize, usize),
    pub desc: Option<(usize, usize)>,
}

/// The name that starts at `p`: `[` name characters `]`, or name characters.
pub open spec fn param_name_at(b: Seq<u8>, p: int, e: int) -> Option<(usize, usize)> {
    if p < e && b[p] == OPEN_BRACKET {
        let n = scan(b, p + 1, e, ByteClass::NameChar);
        if n > p + 1 && n < e && b[n] == CLOSE_BRACKET {
            Some((p as usize, (n + 1) as usize))
        } else {
            None
        }
    } else {
        let n = scan(b, p, e, ByteClass::NameChar);
        if n > p {
            Some((p as usize, n as usize))
        } else {
            None
        }
    }
}

/// What follows the name: blanks, then `-` and the description up to the
/// end of the tag less its trailing spaces, or only spaces.
pub open spec fn param_rest(b: Seq<u8>, ty: Option<(usize, usize)>, name: (usize, usize), e: int) -> Option<ParamSpans> {
    let p3 = scan(b, name.1 as int, e, ByteClass::Blank);
    if p3 < e && b[p3] == DASH {
        let d0 = scan(b, p3 + 1, e, ByteClass::Blank);
        Some(ParamSpans { ty, name, desc: Some((d0 as usize, trim_end(b, d0, e) as usize)) })
    } else if scan(b, p3, e, ByteClass::Space) == e {
        Some(ParamSpans { ty, name, desc: None })
    } else {
        None
    }
}

pub open spec fn param_after_type(b: Seq<u8>, ty: Option<(usize, usize)>, p: int, e: int) -> Option<ParamSpans> {
    match param_name_at(b, p, e) {
        Some(name) => param_rest(b, ty, name, e),
        None => None,
    }
}

/// The parts of the `@param` tag `[a, e)`: blanks, an optional `{type}`
/// and blanks, then the name and the rest; or nothing, where it does not
/// read so.
pub open spec fn param_layout(b: Seq<u8>, a: int, e: int) -> Option<ParamSpans> {
    // Right after `@param`.
    let p0 = a + 6;
    let p1 = scan(b, p0, e, ByteClass::Blank);
    if p1 == p0 || p1 >= e {
        None
    } else if b[p1] == OPEN_BRACE {
        let t = scan(b, p1 + 1, e, ByteClass::TypeChar);
        if t >= e || b[t] != CLOSE_BRACE {
            None
        } else {
            let p2 = scan(b, t + 1, e, ByteClass::Blank);
            if p2 == t + 1 {
                None
            } else {
                param_after_type(b, Some((p1 as usize, (t + 1) as usize)), p2, e)
            }
        }
    } else {
        param_after_type(b, None, p1, e)
    }
}

/// A production with no children that matched `[s, e)`.
pub open spec fn is_leaf(p: Pair, rule: Rule, s: int, e: int) -> bool {
    &&& p.rule == rule
    &&& p.start == s
    &&& p.end == e
    &&& p.inner@.len() == 0
}

/// The tree of a parameter `[a, e)` whose parts stand at `l`.
pub open spec fn is_param_tree(p: Pair, l: ParamSpans, a: int, e: int) -> bool {
    let n: int = if l.ty is Some { 1 } else { 0 };
    let m: int = n + 1 + if l.desc is Some { 1int } else { 0 };
    &&& p.rule == Rule::ParamNode
    &&& p.start == a
    &&& p.end == e
    &&& p.inner@.len() == m
    &&& (l.ty matches Some(t) ==> is_leaf(p.inner@[0], Rule::ParamType, t.0 as int, t.1 as int))
    &&& is_leaf(p.inner@[n], Rule::ParamName, l.name.0 as int, l.name.1 as int)
    &&& (l.desc matches Some(d) ==> is_leaf(p.inner@[n + 1], Rule::ParamDescription, d.0 as int, d.1 as int))
}

/// The tree of the tag `[a, e)`: a documentation tag, or plain text.
pub open spec fn is_item_tree(p: Pair, b: Seq<u8>, a: int, e: int) -> bool {
    let k = tag_kind(b, a, e);
    if k == TagKind::Unknown {
        is_leaf(p, Rule::TextNode, a, e)
    } else {
        &&& p.rule == Rule::LiquidDocNode
        &&& p.start == a
        &&& p.end == e
        &&& p.inner@.len() == 1
        &&& if k == TagKind::Param {
            param_layout(b, a, e) matches Some(l) && is_param_tree(p.inner@[0], l, a, e)
        } else {
            is_leaf(p.inner@[0], tag_rule(k), a, e)
        }
    }
}

/// The tag of the tag line `line` reads as the grammar asks.
pub open spec fn line_parses(b: Seq<u8>, line: int) -> bool {
    let a = item_start(b, line);
    let e = item_end(b, line);
    tag_kind(b, a, e) != TagKind::Param || param_layout(b, a, e) is Some
}

/// The grammar accepts the text: every tag reads as it should.
pub open spec fn accepts(b: Seq<u8>) -> bool {
    forall|j: int| 0 <= j < tag_lines(b, 0).len() ==> line_parses(b, #[trigger] tag_lines(b, 0)[j])
}

/// `t` is the syntax tree of the text: the implicit description up to the
/// first tag line, one production per tag line, and the end of input.
pub open spec fn is_document_tree(t: Pair, b: Seq<u8>) -> bool {
    let lines = tag_lines(b, 0);
    let n = b.len() as int;
    let k0 = next_tag_line(b, 0);
    &&& t.rule == Rule::Document
    &&& t.start == 0
    &&& t.end == n
    &&& t.inner@.len() == lines.len() + 2
    &&& t.inner@[0].rule == Rule::ImplicitDescription
    &&& t.inner@[0].start == 0
    &&& t.inner@[0].end == k0
    &&& t.inner@[0].inner@.len() == 1
    &&& is_leaf(t.inner@[0].inner@[0], Rule::ImplicitDescriptionContent, 0, k0)
    &&& forall|j: int| 0 <= j < lines.len() ==> is_item_tree(#[trigger] t.inner@[j + 1], b,
        item_start(b, lines[j]), item_end(b, lines[j]))
    &&& is_leaf(t.inner@[lines.len() + 1int], Rule::EOI, n, n)
}

/// A position next to an ASCII byte, or at either end of the text.
pub open spec fn ascii_adjacent(b: Seq<u8>, x: int) -> bool {
    &&& 0 <= x <= b.len()
    &&& (x == 0 || x == b.len() || is_ascii_byte(b[x]) || is_ascii_byte(b[x - 1]))
}

proof fn lemma_next_tag_line(b: Seq<u8>, i: int)
    requires
        0 <= i <= b.len(),
    ensures
        i <= next_tag_line(b, i) <= b.len(),
        next_tag_line(b, i) < b.len() ==> is_tag_line(b, next_tag_line(b, i)),
        tag_lines(b, i) == tag_lines(b, next_tag_line(b, i)),
    decreases b.len() - i,
{
    if i < b.len() && !is_tag_line(b, i) {
        lemma_next_tag_line(b, i + 1);
    }
}

/// Whether a tag line begins at `i`.
fn is_tag_line_at(bytes: &[u8], i: usize) -> (r: bool)
    requires
        i < bytes@.len(),
    ensures
        r == is_tag_line(bytes@, i as int),
{
    if i == 0 || bytes[i - 1] == LF {
        let a = scan_while(bytes, i, bytes.len(), ByteClass::Blank);
        a < bytes.len() && bytes[a] == AT
    } else {
        false
    }
}

/// The first tag line at or after `i`, or the length of the text.
fn find_tag_line(bytes: &[u8], i: usize) -> (r: usize)
    requires
        i <= bytes@.len(),
    ensures
        r == next_tag_line(bytes@, i as int),
{
    let mut j = i;
    while j < bytes.len() && !is_tag_line_at(bytes, j)
        invariant
            i <= j <= bytes@.len(),
            next_tag_line(bytes@, i as int) == next_tag_line(bytes@, j as int),
        decreases bytes@.len() - j,
    {
        j += 1;
    }
    j
}

fn tag_word_str(k: TagKind) -> (r: &'static str)
    ensures
        r.spec_bytes() == tag_word(k),
{
    let r = match k {
        TagKind::Param => {
            let w = "param";
            proof { reveal_strlit("param"); }
            assert(is_ascii(w));
            w
        },
        TagKind::Example => {
            let w = "example";
            proof { reveal_strlit("example"); }
            assert(is_ascii(w));
            w
        },
        TagKind::Description => {
            let w = "description";
            proof { reveal_strlit("description"); }
            assert(is_ascii(w));
            w
        },
        TagKind::Prompt => {
            let w = "prompt";
            proof { reveal_strlit("prompt"); }
            assert(is_ascii(w));
            w
        },
        TagKind::Fallback => {
            let w = "fallback";
            proof { reveal_strlit("fallback"); }
            assert(is_ascii(w));
            w
        },
        TagKind::Unknown => {
            let w = "";
            proof { reveal_strlit(""); }
            assert(is_ascii(w));
            w
        },
    };
    assert(r.spec_bytes() =~= tag_word(k));
    r
}

/// Whether the word `w`, ended by a space or by `e`, follows the `@` at `a`.
fn keyword_at_exec(bytes: &[u8], a: usize, e: usize, w: &str) -> (r: bool)
    requires
        a < e <= bytes@.len(),
    ensures
        r == keyword_at(bytes@, a as int, e as int, w.spec_bytes()),
{
    let wb = w.as_bytes();
    if wb.len() > e - a - 1 {
        return false;
    }
    let k = a + 1 + wb.len();
    let mut i: usize = 0;
    while i < wb.len()
        invariant
            wb@ == w.spec_bytes(),
            k == a + 1 + wb@.len(),
            k <= e <= bytes@.len(),
            i <= wb@.len(),
            forall|j: int| 0 <= j < i ==> bytes@[a + 1 + j] == wb@[j],
        decreases wb@.len() - i,
    {
        if bytes[a + 1 + i] != wb[i] {
            assert(bytes@.subrange(a + 1, k as int)[i as int] != wb@[i as int]);
            return false;
        }
        i += 1;
    }
    assert(bytes@.subrange(a + 1, k as int) =~= wb@);
    k == e || crate::scan::in_class_exec(bytes[k], ByteClass::Space)
}

/// The kind of the tag `[a, e)`.
fn read_tag_kind(bytes: &[u8], a: usize, e: usize) -> (r: TagKind)
    requires
        a < e <= bytes@.len(),
    ensures
        r == tag_kind(bytes@, a as int, e as int),
{
    if keyword_at_exec(bytes, a, e, tag_word_str(TagKind::Param)) {
        TagKind::Param
    } else if keyword_at_exec(bytes, a, e, tag_word_str(TagKind::Example)) {
        TagKind::Example
    } else if keyword_at_exec(bytes, a, e, tag_word_str(TagKind::Description)) {
        TagKind::Description
    } else if keyword_at_exec(bytes, a, e, tag_word_str(TagKind::Prompt)) {
        TagKind::Prompt
    } else if keyword_at_exec(bytes, a, e, tag_word_str(TagKind::Fallback)) {
        TagKind::Fallback
    } else {
        TagKind::Unknown
    }
}

fn read_param_name(bytes: &[u8], p: usize, e: usize) -> (r: Option<(usize, usize)>)
    requires
        p <= e <= bytes@.len(),
    ensures
        r == param_name_at(bytes@, p as int, e as int),
{
    if p < e && bytes[p] == OPEN_BRACKET {
        let n = scan_while(bytes, p + 1, e, ByteClass::NameChar);
        proof { lemma_scan(bytes@, p + 1, e as int, ByteClass::NameChar); }
        if n > p + 1 && n < e && bytes[n] == CLOSE_BRACKET {
            Some((p, n + 1))
        } else {
            None
        }
    } else {
        let n = scan_while(bytes, p, e, ByteClass::NameChar);
        proof { lemma_scan(bytes@, p as int, e as int, ByteClass::NameChar); }
        if n > p {
            Some((p, n))
        } else {
            None
        }
    }
}

fn read_param_rest(bytes: &[u8], ty: Option<(usize, usize)>, name: (usize, usize), e: usize) -> (r: Option<ParamSpans>)
    requires
        name.1 <= e <= bytes@.len(),
    ensures
        r == param_rest(bytes@, ty, name, e as int),
{
    let p3 = scan_while(bytes, name.1, e, ByteClass::Blank);
    proof { lemma_scan(bytes@, name.1 as int, e as int, ByteClass::Blank); }
    if p3 < e && bytes[p3] == DASH {
        let d0 = scan_while(bytes, p3 + 1, e, ByteClass::Blank);
        proof { lemma_scan(bytes@, p3 + 1, e as int, ByteClass::Blank); }
        Some(ParamSpans { ty, name, desc: Some((d0, trim_space_end(bytes, d0, e))) })
    } else if scan_while(bytes, p3, e, ByteClass::Space) == e {
        Some(ParamSpans { ty, name, desc: None })
    } else {
        None
    }
}

fn read_param_after_type(bytes: &[u8], ty: Option<(usize, usize)>, p: usize, e: usize) -> (r: Option<ParamSpans>)
    requires
        p <= e <= bytes@.len(),
    ensures
        r == param_after_type(bytes@, ty, p as int, e as int),
{
    match read_param_name(bytes, p, e) {
        Some(name) => {
            // Reading the length brings its bound into the proof.
            let _len = bytes.len();
            proof { lemma_name_bounds(bytes@, p as int, e as int); }
            read_param_rest(bytes, ty, name, e)
        },
        None => None,
    }
}

proof fn lemma_name_bounds(b: Seq<u8>, p: int, e: int)
    requires
        0 <= p <= e <= b.len(),
        b.len() <= usize::MAX,
    ensures
        param_name_at(b, p, e) matches Some(n) ==> p <= n.0 && n.0 < n.1 && n.1 <= e,
{
    if p < e && b[p] == OPEN_BRACKET {
        lemma_scan(b, p + 1, e, ByteClass::NameChar);
    } else {
        lemma_scan(b, p, e, ByteClass::NameChar);
    }
}

/// The parts of the `@param` tag `[a, e)`, where it reads as one.
fn read_param(bytes: &[u8], a: usize, e: usize) -> (r: Option<ParamSpans>)
    requires
        a + 6 <= e <= bytes@.len(),
    ensures
        r == param_layout(bytes@, a as int, e as int),
{
    let p0 = a + 6;
    let p1 = scan_while(bytes, p0, e, ByteClass::Blank);
    proof { lemma_scan(bytes@, p0 as int, e as int, ByteClass::Blank); }
    if p1 == p0 || p1 >= e {
        None
    } else if bytes[p1] == OPEN_BRACE {
        let t = scan_while(bytes, p1 + 1, e, ByteClass::TypeChar);
        proof { lemma_scan(bytes@, p1 + 1, e as int, ByteClass::TypeChar); }
        if t >= e || bytes[t] != CLOSE_BRACE {
            None
        } else {
            let p2 = scan_while(bytes, t + 1, e, ByteClass::Blank);
            proof { lemma_scan(bytes@, t + 1, e as int, ByteClass::Blank); }
            if p2 == t + 1 {
                None
            } else {
                read_param_after_type(bytes, Some((p1, t + 1)), p2, e)
            }
        }
    } else {
        read_param_after_type(bytes, None, p1, e)
    }
}

proof fn lemma_param_positions(b: Seq<u8>, a: int, e: int)
    requires
        0 <= a,
        a + 6 <= e <= b.len(),
        b.len() <= usize::MAX,
        ascii_adjacent(b, e),
        param_layout(b, a, e) is Some,
    ensures
        ({
            let l = param_layout(b, a, e)->0;
            &&& a < l.name.0 < l.name.1 <= e
            &&& ascii_adjacent(b, l.name.0 as int)
            &&& ascii_adjacent(b, l.name.1 as int)
            &&& (l.ty matches Some(t) ==> a < t.0 < t.1 < l.name.0 && ascii_adjacent(b, t.0 as int)
                && ascii_adjacent(b, t.1 as int))
            &&& (l.desc matches Some(d) ==> l.name.1 < d.0 <= d.1 <= e && ascii_adjacent(b, d.0 as int)
                && ascii_adjacent(b, d.1 as int))
        }),
{
    let p0 = a + 6;
    let p1 = scan(b, p0, e, ByteClass::Blank);
    lemma_scan(b, p0, e, ByteClass::Blank);
    let p = if b[p1] == OPEN_BRACE {
        let t = scan(b, p1 + 1, e, ByteClass::TypeChar);
        lemma_scan(b, p1 + 1, e, ByteClass::TypeChar);
        let p2 = scan(b, t + 1, e, ByteClass::Blank);
        lemma_scan(b, t + 1, e, ByteClass::Blank);
        p2
    } else {
        p1
    };
    assert(is_ascii_byte(b[p - 1]));
    lemma_name_bounds(b, p, e);
    let name = param_name_at(b, p, e)->0;
    if p < e && b[p] == OPEN_BRACKET {
        lemma_scan(b, p + 1, e, ByteClass::NameChar);
    } else {
        lemma_scan(b, p, e, ByteClass::NameChar);
        crate::scan::lemma_class_ascii(b[name.1 as int], ByteClass::NameChar);
    }
    let p3 = scan(b, name.1 as int, e, ByteClass::Blank);
    lemma_scan(b, name.1 as int, e, ByteClass::Blank);
    if p3 < e && b[p3] == DASH {
        let d0 = scan(b, p3 + 1, e, ByteClass::Blank);
        lemma_scan(b, p3 + 1, e, ByteClass::Blank);
        lemma_trim_end(b, d0, e);
        crate::scan::lemma_class_ascii(b[trim_end(b, d0, e)], ByteClass::Space);
    }
}

proof fn lemma_no_tag_line_until(b: Seq<u8>, i: int, m: int)
    requires
        0 <= i <= m + 1,
        m < b.len(),
        forall|j: int| i <= j <= m ==> !is_tag_line(b, j),
    ensures
        next_tag_line(b, i) > m,
    decreases m + 1 - i,
{
    if i <= m {
        lemma_no_tag_line_until(b, i + 1, m);
    } else {
        lemma_next_tag_line(b, i);
    }
}

fn leaf(rule: Rule, start: usize, end: usize) -> (r: Pair)
    ensures
        is_leaf(r, rule, start as int, end as int),
{
    Pair { rule, start, end, inner: Vec::new() }
}

/// The production of the tag `[a, e)`, or nothing where a `@param` tag does
/// not read as one.
fn parse_item(bytes: &[u8], a: usize, e: usize) -> (r: Option<Pair>)
    requires
        a < e <= bytes@.len(),
        bytes@[a as int] == AT,
        valid_utf8(bytes@),
        ascii_adjacent(bytes@, e as int),
    ensures
        r is Some <==> (tag_kind(bytes@, a as int, e as int) != TagKind::Param
            || param_layout(bytes@, a as int, e as int) is Some),
        r matches Some(p) ==> is_item_tree(p, bytes@, a as int, e as int) && item_shape(p, bytes@),
{
    let ghost b = bytes@;
    // Reading the length brings its bound into the proof.
    let _len = bytes.len();
    proof {
        lemma_ascii_boundary(b, a as int);
        lemma_ascii_boundary(b, e as int);
    }
    let k = read_tag_kind(bytes, a, e);
    match k {
        TagKind::Unknown => Some(leaf(Rule::TextNode, a, e)),
        TagKind::Param => {
            assert(tag_word(TagKind::Param).len() == 5);
            match read_param(bytes, a, e) {
                None => None,
                Some(l) => {
                    proof {
                        lemma_param_positions(b, a as int, e as int);
                        lemma_ascii_boundary(b, l.name.0 as int);
                        lemma_ascii_boundary(b, l.name.1 as int);
                        if let Some(t) = l.ty {
                            lemma_ascii_boundary(b, t.0 as int);
                            lemma_ascii_boundary(b, t.1 as int);
                        }
                        if let Some(d) = l.desc {
                            lemma_ascii_boundary(b, d.0 as int);
                            lemma_ascii_boundary(b, d.1 as int);
                        }
                    }
                    let mut parts: Vec<Pair> = Vec::new();
                    if let Some(t) = l.ty {
                        parts.push(leaf(Rule::ParamType, t.0, t.1));
                    }
                    parts.push(leaf(Rule::ParamName, l.name.0, l.name.1));
                    if let Some(d) = l.desc {
                        parts.push(leaf(Rule::ParamDescription, d.0, d.1));
                    }
                    let tag = Pair { rule: Rule::ParamNode, start: a, end: e, inner: parts };
                    assert(is_param_tree(tag, l, a as int, e as int));
                    assert(param_shape(tag, b));
                    let mut inner: Vec<Pair> = Vec::new();
                    inner.push(tag);
                    Some(Pair { rule: Rule::LiquidDocNode, start: a, end: e, inner })
                },
            }
        },
        _ => {
            let rule = match k {
                TagKind::Example => Rule::ExampleNode,
                TagKind::Description => Rule::DescriptionNode,
                TagKind::Prompt => Rule::PromptNode,
                _ => Rule::FallbackNode,
            };
            let mut inner: Vec<Pair> = Vec::new();
            inner.push(leaf(rule, a, e));
            Some(Pair { rule: Rule::LiquidDocNode, start: a, end: e, inner })
        },
    }
}

/// The syntax tree of `input`, or nothing where the grammar does not accept it.
pub fn parse_document(input: &str) -> (r: Option<Pair>)
    ensures
        r is Some <==> accepts(input.spec_bytes()),
        r matches Some(t) ==> is_document_tree(t, input.spec_bytes()) && visit_shape(t, input.spec_bytes()),
{
    let bytes = input.as_bytes();
    let ghost b = bytes@;
    proof {
        encode_utf8_valid_utf8(input@);
    }
    let n = bytes.len();
    let k0 = find_tag_line(bytes, 0);
    proof {
        lemma_next_tag_line(b, 0);
        lemma_ascii_boundary(b, 0);
        lemma_ascii_boundary(b, k0 as int);
    }
    let mut content: Vec<Pair> = Vec::new();
    content.push(leaf(Rule::ImplicitDescriptionContent, 0, k0));
    let mut kids: Vec<Pair> = Vec::new();
    kids.push(Pair { rule: Rule::ImplicitDescription, start: 0, end: k0, inner: content });
    let mut k = k0;
    let ghost mut done: Seq<int> = seq![];
    assert(tag_lines(b, 0) =~= done + tag_lines(b, k as int));
    while k < n
        invariant
            b == bytes@,
            b == input.spec_bytes(),
            valid_utf8(b),
            n == b.len(),
            k0 == next_tag_line(b, 0),
            k0 <= k <= n,
            k < n ==> is_tag_line(b, k as int),
            tag_lines(b, 0) == done + tag_lines(b, k as int),
            kids@.len() == done.len() + 1,
            kids@[0].rule == Rule::ImplicitDescription,
            kids@[0].start == 0,
            kids@[0].end == k0,
            kids@[0].inner@.len() == 1,
            is_leaf(kids@[0].inner@[0], Rule::ImplicitDescriptionContent, 0, k0 as int),
            item_shape(kids@[0], b),
            forall|j: int| 0 <= j < done.len() ==> is_item_tree(#[trigger] kids@[j + 1], b,
                item_start(b, done[j]), item_end(b, done[j])) && item_shape(kids@[j + 1], b),
            forall|j: int| 0 <= j < done.len() ==> line_parses(b, #[trigger] done[j]),
        decreases n - k,
    {
        let a = scan_while(bytes, k, n, ByteClass::Blank);
        let e = find_tag_line(bytes, k + 1);
        proof {
            lemma_scan(b, k as int, n as int, ByteClass::Blank);
            lemma_next_tag_line(b, k + 1);
            assert forall|j: int| k + 1 <= j <= a implies !is_tag_line(b, j) by {
                assert(crate::scan::in_class(b[j - 1], ByteClass::Blank));
            }
            lemma_no_tag_line_until(b, k + 1, a as int);
            assert(tag_lines(b, k as int) == seq![k as int] + tag_lines(b, k + 1));
            if e < n {
                assert(is_tag_line(b, e as int));
            }
        }
        match parse_item(bytes, a, e) {
            None => {
                proof {
                    assert(tag_lines(b, 0)[done.len() as int] == k);
                    assert(!line_parses(b, k as int));
                }
                return None;
            },
            Some(item) => {
                kids.push(item);
            },
        }
        proof {
            done = done.push(k as int);
            assert(tag_lines(b, 0) =~= done + tag_lines(b, e as int));
        }
        k = e;
    }
    proof {
        assert(tag_lines(b, n as int) =~= Seq::<int>::empty());
        assert(tag_lines(b, 0) =~= done);
        lemma_ascii_boundary(b, n as int);
    }
    kids.push(leaf(Rule::EOI, n, n));
    let t = Pair { rule: Rule::Document, start: 0, end: n, inner: kids };
    assert(is_document_tree(t, b));
    assert forall|i: int| 0 <= i < t.inner@.len() implies item_shape(#[trigger] t.inner@[i], b) by {
        if 0 < i < t.inner@.len() - 1 {
            assert(item_shape(t.inner@[(i - 1) + 1], b));
        }
    }
    assert(visit_shape(t, b));
    Some(t)
}

} // verus!
