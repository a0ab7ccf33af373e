//! Byte offsets into a source text, and the code point and UTF-16 offsets
//! that stand for the same places.
use vstd::prelude::*;
use crate::text::chars_of;

verus! {

/// A half-open interval of byte offsets into a source text.
#[derive(Clone, Copy, Debug, PartialEq, Eq, Structural)]
pub struct Span {
    pub lo: usize,
    pub hi: usize,
}

/// Number of bytes of the UTF-8 encoding of `c`.
pub open spec fn utf8_width(c: char) -> nat {
    let u = c as u32;
    if u < 0x80 {
        1
    } else if u < 0x800 {
        2
    } else if u < 0x10000 {
        3
    } else {
        4
    }
}

/// Number of UTF-16 code units that encode `c`.
pub open spec fn utf16_width(c: char) -> nat {
    if (c as u32) < 0x10000 {
        1
    } else {
        2
    }
}

/// Length in bytes of the UTF-8 encoding of `s`.
pub open spec fn byte_len(s: Seq<char>) -> nat
    decreases s.len(),
{
    if s.len() == 0 {
        0
    } else {
        byte_len(s.drop_last()) + utf8_width(s.last())
    }
}

/// Length of `s` in UTF-16 code units.
pub open spec fn utf16_len(s: Seq<char>) -> nat
    decreases s.len(),
{
    if s.len() == 0 {
        0
    } else {
        utf16_len(s.drop_last()) + utf16_width(s.last())
    }
}

/// The bytes by which the UTF-8 encoding of `s` is longer than `s` has
/// characters: one less than the width of each character, summed.
pub open spec fn extra_bytes(s: Seq<char>) -> nat
    decreases s.len(),
{
    if s.len() == 0 {
        0
    } else {
        extra_bytes(s.drop_last()) + (utf8_width(s.last()) - 1) as nat
    }
}

/// The bytes by which the UTF-8 encoding of `s` is longer than its UTF-16
/// encoding is in code units, summed over its characters.
pub open spec fn bytes_over_units(s: Seq<char>) -> nat
    decreases s.len(),
{
    if s.len() == 0 {
        0
    } else {
        bytes_over_units(s.drop_last()) + (utf8_width(s.last()) - utf16_width(s.last())) as nat
    }
}

pub proof fn lemma_byte_len_units(s: Seq<char>)
    ensures
        byte_len(s) == utf16_len(s) + bytes_over_units(s),
    decreases s.len(),
{
    if s.len() > 0 {
        lemma_byte_len_units(s.drop_last());
    }
}

/// `b` is a byte offset of `s` that falls between two characters (or at
/// either end).
pub open spec fn is_boundary(s: Seq<char>, b: int) -> bool {
    exists|k: int| 0 <= k <= s.len() && byte_len(s.take(k)) == b
}

pub proof fn lemma_byte_len_concat(a: Seq<char>, b: Seq<char>)
    ensures
        byte_len(a + b) == byte_len(a) + byte_len(b),
        utf16_len(a + b) == utf16_len(a) + utf16_len(b),
        extra_bytes(a + b) == extra_bytes(a) + extra_bytes(b),
    decreases b.len(),
{
    if b.len() == 0 {
        assert(a + b =~= a);
    } else {
        assert((a + b).drop_last() =~= a + b.drop_last());
        lemma_byte_len_concat(a, b.drop_last());
    }
}

pub proof fn lemma_byte_len_chars(s: Seq<char>)
    ensures
        byte_len(s) == s.len() + extra_bytes(s),
    decreases s.len(),
{
    if s.len() > 0 {
        lemma_byte_len_chars(s.drop_last());
    }
}

/// Byte lengths grow strictly with the prefix taken.
pub proof fn lemma_byte_len_prefix(s: Seq<char>, i: int, j: int)
    requires
        0 <= i <= j <= s.len(),
    ensures
        byte_len(s.take(i)) + (j - i) <= byte_len(s.take(j)),
        byte_len(s.take(j)) == byte_len(s.take(i)) + byte_len(s.subrange(i, j)),
        utf16_len(s.take(j)) == utf16_len(s.take(i)) + utf16_len(s.subrange(i, j)),
{
    assert(s.take(j) =~= s.take(i) + s.subrange(i, j));
    lemma_byte_len_concat(s.take(i), s.subrange(i, j));
    lemma_byte_len_chars(s.subrange(i, j));
}

/// A byte offset between two characters names exactly one prefix.
pub proof fn lemma_boundary_unique(s: Seq<char>, i: int, j: int)
    requires
        0 <= i <= s.len(),
        0 <= j <= s.len(),
        byte_len(s.take(i)) == byte_len(s.take(j)),
    ensures
        i == j,
{
    if i < j {
        lemma_byte_len_prefix(s, i, j);
    } else if j < i {
        lemma_byte_len_prefix(s, j, i);
    }
}

/// Bytes of the UTF-8 encoding of `c`, as `char::len_utf8` gives them.
pub fn utf8_width_of(c: char) -> (r: usize)
    ensures
        r == utf8_width(c),
{
    let u = c as u32;
    if u < 0x80 {
        1
    } else if u < 0x800 {
        2
    } else if u < 0x10000 {
        3
    } else {
        4
    }
}

/// UTF-16 code units that encode `c`, as `char::len_utf16` gives them.
pub fn utf16_width_of(c: char) -> (r: usize)
    ensures
        r == utf16_width(c),
{
    let u = c as u32;
    if u < 0x10000 {
        1
    } else {
        2
    }
}

pub proof fn lemma_utf16_le_bytes(s: Seq<char>)
    ensures
        utf16_len(s) <= byte_len(s),
    decreases s.len(),
{
    if s.len() > 0 {
        lemma_utf16_le_bytes(s.drop_last());
    }
}

/// The number of characters of `src` that stand before the byte offset
/// `byte`.
pub fn char_offset(src: &str, byte: usize) -> (k: usize)
    requires
        is_boundary(src@, byte as int),
    ensures
        k <= src@.len(),
        byte_len(src@.take(k as int)) == byte,
{
    let cs = chars_of(src);
    let n = cs.len();
    let ghost w = choose|k: int| 0 <= k <= src@.len() && byte_len(src@.take(k)) == byte;
    let mut i: usize = 0;
    let mut acc: usize = 0;
    while acc < byte
        invariant
            cs@ == src@,
            n == cs@.len(),
            0 <= w <= src@.len(),
            byte_len(src@.take(w)) == byte,
            i <= w,
            acc == byte_len(src@.take(i as int)),
        decreases w - i,
    {
        proof {
            assert(i < w);
            lemma_byte_len_prefix(src@, i + 1, w);
            assert(src@.take(i + 1).drop_last() =~= src@.take(i as int));
        }
        acc = acc + utf8_width_of(cs[i]);
        i = i + 1;
    }
    proof {
        if i < w {
            lemma_byte_len_prefix(src@, i as int, w);
        }
    }
    i
}

/// The number of characters of `src` before the byte offset `byte`, and the
/// number of UTF-16 code units that encode them.
fn offsets_at(src: &str, byte: usize) -> (r: (usize, usize))
    requires
        is_boundary(src@, byte as int),
    ensures
        r.0 <= src@.len(),
        byte_len(src@.take(r.0 as int)) == byte,
        r.1 == utf16_len(src@.take(r.0 as int)),
{
    let k = char_offset(src, byte);
    let cs = chars_of(src);
    proof {
        lemma_utf16_le_bytes(src@.take(k as int));
    }
    let mut i: usize = 0;
    let mut acc: usize = 0;
    while i < k
        invariant
            cs@ == src@,
            k <= src@.len(),
            i <= k,
            acc == utf16_len(src@.take(i as int)),
            byte_len(src@.take(k as int)) == byte,
            utf16_len(src@.take(k as int)) <= byte,
        decreases k - i,
    {
        proof {
            assert(src@.take(i + 1).drop_last() =~= src@.take(i as int));
            lemma_byte_len_prefix(src@, i + 1, k as int);
        }
        acc = acc + utf16_width_of(cs[i]);
        i = i + 1;
    }
    (k, acc)
}

/// The number of UTF-16 code units that encode the part of `src` before the
/// byte offset `byte`.
pub fn utf16_offset(src: &str, byte: usize) -> (u: usize)
    requires
        is_boundary(src@, byte as int),
    ensures
        exists|k: int|
            0 <= k <= src@.len() && byte_len(src@.take(k)) == byte && u == utf16_len(src@.take(k)),
{
    offsets_at(src, byte).1
}

/// A span of a source given three ways: in bytes, in code points and in
/// UTF-16 code units.
#[derive(Clone, Copy, Debug, PartialEq, Eq, Structural)]
pub struct Range {
    pub start_byte: usize,
    pub end_byte: usize,
    /// Code points of the source before `start_byte`.
    pub start_utf16_codepoint: usize,
    /// Code points of the source before `end_byte`.
    pub end_utf16_codepoint: usize,
    /// UTF-16 code units that encode the source before `start_byte`.
    pub start_utf16_unit: usize,
    /// UTF-16 code units that encode the source before `end_byte`.
    pub end_utf16_unit: usize,
}

/// `r` describes the byte span `span` of the source `src`.
pub open spec fn range_of(src: Seq<char>, span: Span, r: Range) -> bool {
    &&& r.start_byte == span.lo
    &&& r.end_byte == span.hi
    &&& r.start_utf16_codepoint <= src.len()
    &&& r.end_utf16_codepoint <= src.len()
    &&& byte_len(src.take(r.start_utf16_codepoint as int)) == span.lo
    &&& byte_len(src.take(r.end_utf16_codepoint as int)) == span.hi
    &&& r.start_utf16_unit == utf16_len(src.take(r.start_utf16_codepoint as int))
    &&& r.end_utf16_unit == utf16_len(src.take(r.end_utf16_codepoint as int))
}

impl Range {
    /// The range of `span` in `src`, with the code point offsets counted.
    pub fn new(src: &str, span: &Span) -> (r: Range)
        requires
            is_boundary(src@, span.lo as int),
            is_boundary(src@, span.hi as int),
        ensures
            range_of(src@, *span, r),
    {
        let (start_cp, start_unit) = offsets_at(src, span.lo);
        let (end_cp, end_unit) = offsets_at(src, span.hi);
        Range {
            start_byte: span.lo,
            end_byte: span.hi,
            start_utf16_codepoint: start_cp,
            end_utf16_codepoint: end_cp,
            start_utf16_unit: start_unit,
            end_utf16_unit: end_unit,
        }
    }
}

/// A range is as long in bytes as in code points, plus one byte less than
/// the width of each character it covers (three more for each character of
/// four bytes); and as long in bytes as in UTF-16 code units, plus the bytes
/// by which each character's UTF-8 encoding is longer than its UTF-16 one
/// (two more for each character of four bytes).
pub proof fn lemma_range_widths(src: Seq<char>, span: Span, r: Range)
    requires
        range_of(src, span, r),
        span.lo <= span.hi,
    ensures
        r.start_utf16_codepoint <= r.end_utf16_codepoint,
        r.end_byte - r.start_byte == (r.end_utf16_codepoint - r.start_utf16_codepoint)
            + extra_bytes(src.subrange(r.start_utf16_codepoint as int, r.end_utf16_codepoint as int)),
        r.start_utf16_unit <= r.end_utf16_unit,
        r.end_byte - r.start_byte == (r.end_utf16_unit - r.start_utf16_unit) + bytes_over_units(
            src.subrange(r.start_utf16_codepoint as int, r.end_utf16_codepoint as int),
        ),
{
    let i = r.start_utf16_codepoint as int;
    let j = r.end_utf16_codepoint as int;
    if j < i {
        lemma_byte_len_prefix(src, j, i);
        lemma_boundary_unique(src, i, j);
    }
    lemma_byte_len_prefix(src, i, j);
    lemma_byte_len_chars(src.subrange(i, j));
    lemma_byte_len_units(src.subrange(i, j));
}

/// A character beyond the basic plane takes four bytes, two UTF-16 code
/// units and one code point.
pub proof fn lemma_astral_char(s: Seq<char>, c: char)
    requires
        c as u32 >= 0x10000,
    ensures
        byte_len(s.push(c)) == byte_len(s) + 4,
        utf16_len(s.push(c)) == utf16_len(s) + 2,
        s.push(c).len() == s.len() + 1,
        extra_bytes(s.push(c)) == extra_bytes(s) + 3,
        bytes_over_units(s.push(c)) == bytes_over_units(s) + 2,
{
    assert(s.push(c).drop_last() =~= s);
}

} // verus!
