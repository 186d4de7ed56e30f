//! Byte classes of the doc-comment grammar and the scans over them.
use vstd::prelude::*;
use crate::text::is_ascii_byte;

verus! {

pub const SPACE: u8 = 0x20;
pub const TAB: u8 = 0x09;
pub const LF: u8 = 0x0a;
pub const CR: u8 = 0x0d;
pub const AT: u8 = 0x40;
pub const DASH: u8 = 0x2d;
pub const OPEN_BRACE: u8 = 0x7b;
pub const CLOSE_BRACE: u8 = 0x7d;
pub const OPEN_BRACKET: u8 = 0x5b;
pub const CLOSE_BRACKET: u8 = 0x5d;

/// A space or a tab.
pub open spec fn is_blank(c: u8) -> bool {
    c == SPACE || c == TAB
}

/// A blank or a line break.
pub open spec fn is_space(c: u8) -> bool {
    is_blank(c) || c == LF || c == CR
}

/// The classes of byte that the grammar runs over.
#[derive(Debug, Clone, Copy, PartialEq, Eq, Structural)]
pub enum ByteClass {
    /// Spaces and tabs.
    Blank,
    /// Blanks and line breaks.
    Space,
    /// What a parameter name is made of: no space and no bracket.
    NameChar,
    /// What may stand inside `{ }`: anything but `}` and a line feed.
    TypeChar,
}

pub open spec fn in_class(c: u8, k: ByteClass) -> bool {
    match k {
        ByteClass::Blank => is_blank(c),
        ByteClass::Space => is_space(c),
        ByteClass::NameChar => !is_space(c) && c != OPEN_BRACE && c != CLOSE_BRACE && c != OPEN_BRACKET && c != CLOSE_BRACKET,
        ByteClass::TypeChar => c != CLOSE_BRACE && c != LF,
    }
}

/// The first position in `[i, e)` whose byte is not of class `k`, or `e`.
pub open spec fn scan(b: Seq<u8>, i: int, e: int, k: ByteClass) -> int
    decreases e - i,
{
    if i >= e {
        i
    } else if in_class(b[i], k) {
        scan(b, i + 1, e, k)
    } else {
        i
    }
}

/// `[s, e)` without its trailing spaces: where it then ends.
pub open spec fn trim_end(b: Seq<u8>, s: int, e: int) -> int
    decreases e - s,
{
    if e <= s {
        s
    } else if is_space(b[e - 1]) {
        trim_end(b, s, e - 1)
    } else {
        e
    }
}

pub proof fn lemma_scan(b: Seq<u8>, i: int, e: int, k: ByteClass)
    requires
        0 <= i <= e <= b.len(),
    ensures
        i <= scan(b, i, e, k) <= e,
        forall|j: int| i <= j < scan(b, i, e, k) ==> in_class(#[trigger] b[j], k),
        scan(b, i, e, k) < e ==> !in_class(b[scan(b, i, e, k)], k),
    decreases e - i,
{
    if i < e && in_class(b[i], k) {
        lemma_scan(b, i + 1, e, k);
    }
}

pub proof fn lemma_trim_end(b: Seq<u8>, s: int, e: int)
    requires
        0 <= s <= e <= b.len(),
    ensures
        s <= trim_end(b, s, e) <= e,
        trim_end(b, s, e) < e ==> is_space(b[trim_end(b, s, e)]),
        trim_end(b, s, e) > s ==> !is_space(b[trim_end(b, s, e) - 1]),
    decreases e - s,
{
    if e > s && is_space(b[e - 1]) {
        lemma_trim_end(b, s, e - 1);
    }
}

pub proof fn lemma_class_ascii(c: u8, k: ByteClass)
    ensures
        (k == ByteClass::Blank || k == ByteClass::Space) && in_class(c, k) ==> is_ascii_byte(c),
        k == ByteClass::NameChar && !in_class(c, k) ==> is_ascii_byte(c),
        k == ByteClass::TypeChar && !in_class(c, k) ==> is_ascii_byte(c),
        is_space(c) ==> is_ascii_byte(c),
{
}

pub fn in_class_exec(c: u8, k: ByteClass) -> (r: bool)
    ensures
        r == in_class(c, k),
{
    match k {
        ByteClass::Blank => c == SPACE || c == TAB,
        ByteClass::Space => c == SPACE || c == TAB || c == LF || c == CR,
        ByteClass::NameChar => !(c == SPACE || c == TAB || c == LF || c == CR) && c != OPEN_BRACE
            && c != CLOSE_BRACE && c != OPEN_BRACKET && c != CLOSE_BRACKET,
        ByteClass::TypeChar => c != CLOSE_BRACE && c != LF,
    }
}

/// Skips the bytes of class `k` from `i` on, stopping at `e`.
pub fn scan_while(bytes: &[u8], i: usize, e: usize, k: ByteClass) -> (r: usize)
    requires
        i <= e <= bytes@.len(),
    ensures
        r == scan(bytes@, i as int, e as int, k),
{
    let mut j = i;
    while j < e && in_class_exec(bytes[j], k)
        invariant
            i <= j <= e <= bytes@.len(),
            scan(bytes@, i as int, e as int, k) == scan(bytes@, j as int, e as int, k),
        decreases e - j,
    {
        j += 1;
    }
    j
}

/// Where `[s, e)` ends once its trailing spaces are removed.
pub fn trim_space_end(bytes: &[u8], s: usize, e: usize) -> (r: usize)
    requires
        s <= e <= bytes@.len(),
    ensures
        r == trim_end(bytes@, s as int, e as int),
{
    let mut j = e;
    while j > s && in_class_exec(bytes[j - 1], ByteClass::Space)
        invariant
            s <= j <= e <= bytes@.len(),
            trim_end(bytes@, s as int, e as int) == trim_end(bytes@, s as int, j as int),
        decreases j - s,
    {
        j -= 1;
    }
    j
}

} // verus!
