//! UTF-16 code units and their lexicographic order.
//!
//! JavaScript compares strings by UTF-16 code unit, which differs from Rust's `str` order
//! (code-point order) whenever astral characters meet characters in U+E000..=U+FFFF. Everything
//! that orders text in this crate goes through the encoding and the order defined here.

use vstd::prelude::*;

verus! {

/// The UTF-16 code units of one character: one unit below U+10000, a surrogate pair above.
pub open spec fn char_units(c: char) -> Seq<u16> {
    let v = c as int;
    if v < 0x10000 {
        seq![v as u16]
    } else {
        let w = v - 0x10000;
        seq![(0xD800 + w / 0x400) as u16, (0xDC00 + w % 0x400) as u16]
    }
}

/// The UTF-16 encoding of a character sequence.
pub open spec fn utf16_of(s: Seq<char>) -> Seq<u16>
    decreases s.len(),
{
    if s.len() == 0 {
        Seq::empty()
    } else {
        utf16_of(s.drop_last()) + char_units(s.last())
    }
}

/// For ASCII text the UTF-16 encoding is the character codes themselves.
pub open spec fn ascii_units(s: Seq<char>) -> Seq<u16> {
    Seq::new(s.len(), |i: int| s[i] as u16)
}

/// ASCII lowercasing of one character: `A`..=`Z` move to `a`..=`z`, everything else stays.
pub open spec fn ascii_lower(c: char) -> char {
    if 'A' <= c <= 'Z' {
        ((c as int) + 32) as char
    } else {
        c
    }
}

/// ASCII lowercasing of a character sequence.
pub open spec fn ascii_lowered(s: Seq<char>) -> Seq<char> {
    Seq::new(s.len(), |i: int| ascii_lower(s[i]))
}

/// ASCII-lowercases `chars`.
pub fn ascii_lowercase(chars: &[char]) -> (lowered: Vec<char>)
    ensures
        lowered@ == ascii_lowered(chars@),
{
    let mut lowered: Vec<char> = Vec::new();
    let mut i: usize = 0;
    while i < chars.len()
        invariant
            i <= chars@.len(),
            lowered@ =~= ascii_lowered(chars@.take(i as int)),
        decreases chars@.len() - i,
    {
        let c = chars[i];
        if 'A' <= c && c <= 'Z' {
            let v = (c as u8) + 32;
            let d = v as char;
            assert(d as int == c as int + 32);
            lowered.push(d);
        } else {
            lowered.push(c);
        }
        i = i + 1;
    }
    assert(chars@.take(chars@.len() as int) =~= chars@);
    lowered
}

/// The code point of `c`.
pub fn char_code(c: char) -> (code: u32)
    ensures
        code == c as int,
{
    let code = c as u32;
    assert(code as int == c as int);
    code
}

/// A `u32` index as a `usize`.
pub fn widen(i: u32) -> (w: usize)
    ensures
        w == i,
{
    i as usize
}

/// String slice equality: `a == b` exactly when the two hold the same characters.
pub assume_specification[ <str as PartialEq>::eq ](a: &str, b: &str) -> (equal: bool)
    ensures
        equal == (a@ == b@),
;

/// The characters of a string slice, in order.
pub fn chars_of(s: &str) -> (v: Vec<char>)
    ensures
        v@ == s@,
{
    let mut v: Vec<char> = Vec::new();
    for c in it: s.chars()
        invariant
            v@ == it.seq().take(it.index()),
    {
        v.push(c);
    }
    v
}

/// Appends the UTF-16 code units of `c`.
pub fn push_char_units(out: &mut Vec<u16>, c: char)
    ensures
        final(out)@ == old(out)@ + char_units(c),
{
    let v = c as u32;
    assert(v as int == c as int);
    if v < 0x10000 {
        out.push(v as u16);
    } else {
        assert(v <= 0x10FFFF);
        let w = v - 0x10000;
        out.push((0xD800 + w / 0x400) as u16);
        out.push((0xDC00 + w % 0x400) as u16);
    }
    assert(final(out)@ =~= old(out)@ + char_units(c));
}

/// The UTF-16 encoding of `chars`.
pub fn encode_utf16(chars: &[char]) -> (units: Vec<u16>)
    ensures
        units@ == utf16_of(chars@),
{
    let mut units: Vec<u16> = Vec::new();
    let mut i: usize = 0;
    while i < chars.len()
        invariant
            i <= chars@.len(),
            units@ == utf16_of(chars@.take(i as int)),
        decreases chars@.len() - i,
    {
        proof {
            assert(chars@.take(i + 1).drop_last() =~= chars@.take(i as int));
        }
        push_char_units(&mut units, chars[i]);
        i = i + 1;
    }
    assert(chars@.take(chars@.len() as int) =~= chars@);
    units
}

/// ASCII text encodes to its character codes.
pub proof fn lemma_ascii_units(s: Seq<char>)
    requires
        forall|i: int| 0 <= i < s.len() ==> (s[i] as int) < 0x80,
    ensures
        utf16_of(s) == ascii_units(s),
    decreases s.len(),
{
    if s.len() > 0 {
        lemma_ascii_units(s.drop_last());
        assert(utf16_of(s) =~= ascii_units(s));
    } else {
        assert(utf16_of(s) =~= ascii_units(s));
    }
}

/// UTF-16 encoding distributes over concatenation.
pub proof fn lemma_utf16_concat(a: Seq<char>, b: Seq<char>)
    ensures
        utf16_of(a + b) == utf16_of(a) + utf16_of(b),
    decreases b.len(),
{
    if b.len() == 0 {
        assert(a + b =~= a);
        assert(utf16_of(a) + utf16_of(b) =~= utf16_of(a));
    } else {
        lemma_utf16_concat(a, b.drop_last());
        assert((a + b).drop_last() =~= a + b.drop_last());
        assert(utf16_of(a + b) =~= utf16_of(a) + utf16_of(b));
    }
}

} // verus!
