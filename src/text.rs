//! Byte-level facts about UTF-8 text and the substring extraction that the
//! rest of the library builds on.
use vstd::prelude::*;
use vstd::string::*;
use vstd::utf8::*;

verus! {

broadcast use vstd::utf8::group_utf8_lib;

/// The UTF-8 bytes of a character sequence.
pub open spec fn bytes_of(s: Seq<char>) -> Seq<u8> {
    encode_utf8(s)
}

/// A byte that encodes a character on its own.
pub open spec fn is_ascii_byte(c: u8) -> bool {
    c <= 0x7f
}

/// The position right after an ASCII byte is a character boundary.
proof fn lemma_boundary_after_ascii(b: Seq<u8>, i: int)
    requires
        valid_utf8(b),
        0 <= i < b.len(),
        is_char_boundary(b, i),
        is_ascii_byte(b[i]),
    ensures
        is_char_boundary(b, i + 1),
    decreases b.len(),
{
    let l = length_of_first_scalar(b);
    let rest = pop_first_scalar(b);
    if i == 0 {
        assert(l == 1);
        assert(is_char_boundary(rest, 0));
    } else {
        assert(is_char_boundary(rest, i - l));
        assert(rest.len() == b.len() - l);
        assert(i - l >= 0);
        assert(rest[i - l] == b[i]);
        lemma_boundary_after_ascii(rest, i - l);
    }
}

/// A position next to an ASCII byte, or at either end, is a character boundary.
pub proof fn lemma_ascii_boundary(b: Seq<u8>, i: int)
    requires
        valid_utf8(b),
        0 <= i <= b.len(),
        i == 0 || i == b.len() || is_ascii_byte(b[i]) || is_ascii_byte(b[i - 1]),
    ensures
        is_char_boundary(b, i),
{
    is_char_boundary_start_end_of_seq(b);
    if 0 < i < b.len() && is_ascii_byte(b[i]) {
        is_char_boundary_iff_is_leading_byte(b, i);
    } else if 0 < i && is_ascii_byte(b[i - 1]) {
        is_char_boundary_iff_is_leading_byte(b, i - 1);
        lemma_boundary_after_ascii(b, i - 1);
    }
}

/// The end of a valid prefix is a character boundary of the whole.
pub proof fn lemma_concat_boundary(x: Seq<u8>, y: Seq<u8>)
    requires
        valid_utf8(x),
        valid_utf8(x + y),
    ensures
        is_char_boundary(x + y, x.len() as int),
    decreases x.len(),
{
    if x.len() > 0 {
        let l = length_of_first_scalar(x);
        assert((x + y)[0] == x[0]);
        assert(length_of_first_scalar(x + y) == l);
        assert(pop_first_scalar(x + y) =~= pop_first_scalar(x) + y);
        lemma_concat_boundary(pop_first_scalar(x), y);
    }
}

/// A boundary of the whole is a boundary of a prefix that ends on a boundary.
proof fn lemma_boundary_in_prefix(b: Seq<u8>, s: int, e: int)
    requires
        valid_utf8(b),
        0 <= s <= e <= b.len(),
        is_char_boundary(b, s),
        is_char_boundary(b, e),
    ensures
        valid_utf8(b.subrange(0, e)),
        is_char_boundary(b.subrange(0, e), s),
{
    valid_utf8_split(b, e);
    let p = b.subrange(0, e);
    is_char_boundary_start_end_of_seq(p);
    if 0 < s < e {
        is_char_boundary_iff_not_is_continuation_byte(b, s);
        is_char_boundary_iff_not_is_continuation_byte(p, s);
    }
}

/// The text between two character boundaries, as an owned string.
pub fn slice_string(text: &str, s: usize, e: usize) -> (r: String)
    requires
        s <= e <= text.spec_bytes().len(),
        is_char_boundary(text.spec_bytes(), s as int),
        is_char_boundary(text.spec_bytes(), e as int),
    ensures
        bytes_of(r@) == text.spec_bytes().subrange(s as int, e as int),
{
    proof {
        lemma_boundary_in_prefix(text.spec_bytes(), s as int, e as int);
    }
    let (head, _) = text.split_at(e);
    let (_, mid) = head.split_at(s);
    assert(mid.spec_bytes() =~= text.spec_bytes().subrange(s as int, e as int));
    mid.to_owned()
}

/// Whether `prefix` is where `s` begins.
pub fn starts_with(s: &str, prefix: &str) -> (r: bool)
    ensures
        r == (prefix.spec_bytes().len() <= s.spec_bytes().len()
            && s.spec_bytes().subrange(0, prefix.spec_bytes().len() as int) == prefix.spec_bytes()),
{
    let sb = s.as_bytes();
    let pb = prefix.as_bytes();
    if pb.len() > sb.len() {
        return false;
    }
    let mut i: usize = 0;
    while i < pb.len()
        invariant
            pb@ == prefix.spec_bytes(),
            sb@ == s.spec_bytes(),
            pb@.len() <= sb@.len(),
            i <= pb@.len(),
            forall|k: int| 0 <= k < i ==> sb@[k] == pb@[k],
        decreases pb@.len() - i,
    {
        if sb[i] != pb[i] {
            assert(s.spec_bytes().subrange(0, pb@.len() as int)[i as int] != pb@[i as int]);
            return false;
        }
        i += 1;
    }
    assert(s.spec_bytes().subrange(0, pb@.len() as int) =~= pb@);
    true
}

} // verus!

verus! {

/// A string is empty exactly when its bytes are.
pub proof fn lemma_bytes_of_empty(s: Seq<char>)
    ensures
        (bytes_of(s).len() == 0) == (s.len() == 0),
{
    if s.len() > 0 {
        assert(encode_scalar(s[0] as u32).len() >= 1);
        assert(bytes_of(s) == encode_scalar(s[0] as u32) + encode_utf8(s.drop_first()));
    }
}

} // verus!
