//! Text tests the YAML side of the policy makes on source slices: scalar keys, merge tags, the
//! trivia after a mapping, and anchor positions.

use vstd::prelude::*;

use vstd::string::{StrSliceExecFns, StringSliceAdditionalSpecFns};

use crate::units::{char_code, chars_of};

verus! {

/// Whether `s` holds `c`.
pub fn has_char(s: &[char], c: char) -> (found: bool)
    ensures
        found == s@.contains(c),
{
    let mut i: usize = 0;
    while i < s.len()
        invariant
            i <= s@.len(),
            forall|j: int| 0 <= j < i ==> s@[j] != c,
        decreases s@.len() - i,
    {
        if s[i] == c {
            assert(s@[i as int] == c);
            return true;
        }
        i = i + 1;
    }
    false
}

/// The characters of `s` from `from` up to `to`.
pub fn char_range(s: &[char], from: usize, to: usize) -> (range: Vec<char>)
    requires
        from <= to <= s@.len(),
    ensures
        range@ == s@.subrange(from as int, to as int),
{
    let mut range: Vec<char> = Vec::new();
    let mut i: usize = from;
    while i < to
        invariant
            from <= i <= to,
            to <= s@.len(),
            range@ =~= s@.subrange(from as int, i as int),
        decreases to - i,
    {
        range.push(s[i]);
        i = i + 1;
    }
    range
}

/// Whether two character slices hold the same characters.
pub fn chars_equal(a: &[char], b: &[char]) -> (equal: bool)
    ensures
        equal == (a@ == b@),
{
    if a.len() != b.len() {
        return false;
    }
    let mut i: usize = 0;
    while i < a.len()
        invariant
            a@.len() == b@.len(),
            i <= a@.len(),
            forall|j: int| 0 <= j < i ==> a@[j] == b@[j],
        decreases a@.len() - i,
    {
        if a[i] != b[i] {
            return false;
        }
        i = i + 1;
    }
    assert(a@ =~= b@);
    true
}

/// Whether a character is ASCII.
pub open spec fn is_ascii_char(c: char) -> bool {
    (c as int) < 0x80
}

/// The text a quoted scalar's raw source holds between its delimiters: everything but the first
/// and last character, when both are ASCII (so byte and character positions agree) and there are
/// at least two characters.
pub open spec fn between_delimiters(raw: Seq<char>) -> Option<Seq<char>> {
    if raw.len() >= 2 && is_ascii_char(raw[0]) && is_ascii_char(raw.last()) {
        Some(raw.subrange(1, raw.len() - 1))
    } else {
        None
    }
}

/// How a scalar is written in the source.
#[derive(Debug, Clone, Copy, PartialEq, Eq)]
pub enum ScalarStyle {
    /// A plain scalar.
    Plain,
    /// A single- or double-quoted scalar.
    Quoted,
    /// Anything else: a block scalar, an alias, a collection.
    Other,
}

/// The resolved text of a single-line scalar written `style` with source text `raw`, or `None`
/// when reading it would need real scalar resolution.
pub open spec fn scalar_text_of(style: ScalarStyle, raw: Seq<char>) -> Option<Seq<char>> {
    if raw.contains('\n') {
        None
    } else {
        match style {
            ScalarStyle::Plain => Some(raw),
            ScalarStyle::Quoted => match between_delimiters(raw) {
                Some(inner) => if inner.contains('\'') || inner.contains('"') || inner.contains(
                    '\\',
                ) {
                    None
                } else {
                    Some(inner)
                },
                None => None,
            },
            ScalarStyle::Other => None,
        }
    }
}

/// A key's resolved text: a readable scalar with no space in it.
pub open spec fn key_text_of(style: ScalarStyle, raw: Seq<char>) -> Option<Seq<char>> {
    match scalar_text_of(style, raw) {
        Some(text) => if text.contains(' ') {
            None
        } else {
            Some(text)
        },
        None => None,
    }
}

/// The resolved text of a single-line scalar, without unescaping.
///
/// Refuses anything that would need real scalar resolution: a multi-line scalar, and a quoted
/// one carrying an escape or an embedded quote. Every caller treats `None` as "cannot read this
/// cheaply" and degrades safely.
pub fn scalar_text<'a>(style: ScalarStyle, raw: &'a str) -> (text: Option<&'a str>)
    ensures
        match text {
            Some(t) => scalar_text_of(style, raw@) == Some(t@),
            None => scalar_text_of(style, raw@) is None,
        },
{
    let chars = chars_of(raw);
    if has_char(chars.as_slice(), '\n') {
        return None;
    }
    match style {
        ScalarStyle::Plain => Some(raw),
        ScalarStyle::Quoted => {
            let n = chars.len();
            if n < 2 {
                return None;
            }
            let first = char_code(chars[0]);
            let last = char_code(chars[n - 1]);
            if first >= 0x80 || last >= 0x80 {
                return None;
            }
            let inner_chars = char_range(chars.as_slice(), 1, n - 1);
            if has_char(inner_chars.as_slice(), '\'') || has_char(inner_chars.as_slice(), '"')
                || has_char(inner_chars.as_slice(), '\\') {
                return None;
            }
            let inner = raw.substring_char(1, n - 1);
            Some(inner)
        },
        ScalarStyle::Other => None,
    }
}

/// A key's resolved scalar text, or `None` when it is not readable as one.
///
/// A space or line break refuses outright: the printer may re-fold a multi-line key onto one line,
/// and the folded form differs from the source only by the space it leaves behind. No table name
/// contains a space, a quote, a backslash or a line break, so the only cost is declining to
/// reorder a mapping that has such a key at all.
pub fn resolved_key_text<'a>(style: ScalarStyle, raw: &'a str) -> (text: Option<&'a str>)
    ensures
        match text {
            Some(t) => key_text_of(style, raw@) == Some(t@),
            None => key_text_of(style, raw@) is None,
        },
{
    let text = match scalar_text(style, raw) {
        Some(text) => text,
        None => return None,
    };
    let chars = chars_of(text);
    if has_char(chars.as_slice(), ' ') {
        None
    } else {
        Some(text)
    }
}

/// The characters after the last `!` of `s`, or all of `s` when it has none.
pub open spec fn after_last_bang(s: Seq<char>) -> Seq<char>
    decreases s.len(),
{
    if s.len() == 0 {
        s
    } else if s.last() == '!' {
        Seq::empty()
    } else {
        after_last_bang(s.drop_last()).push(s.last())
    }
}

/// Whether a tag's raw text denotes YAML's merge type: `!<tag:yaml.org,2002:merge>`, or a
/// shorthand whose suffix after its last `!` is `merge`, whatever handle it was written with.
pub open spec fn is_merge_tag(raw: Seq<char>) -> bool {
    ||| raw == "!<tag:yaml.org,2002:merge>"@
    ||| raw.len() >= 1 && raw[0] == '!' && after_last_bang(raw.drop_first()) == "merge"@
}

/// The characters after the last `!` of `s`.
fn suffix_after_last_bang(s: &[char]) -> (suffix: Vec<char>)
    ensures
        suffix@ == after_last_bang(s@),
{
    let mut start: usize = 0;
    let mut i: usize = 0;
    while i < s.len()
        invariant
            start <= i <= s@.len(),
            after_last_bang(s@.take(i as int)) == s@.subrange(start as int, i as int),
        decreases s@.len() - i,
    {
        assert(s@.take(i + 1).drop_last() =~= s@.take(i as int));
        if s[i] == '!' {
            start = i + 1;
            assert(s@.subrange(start as int, i + 1) =~= Seq::<char>::empty());
        } else {
            assert(s@.subrange(start as int, i + 1) =~= s@.subrange(start as int, i as int).push(
                s@[i as int],
            ));
        }
        i = i + 1;
    }
    assert(s@.take(s@.len() as int) =~= s@);
    char_range(s, start, s.len())
}

/// Whether a tag denotes YAML's merge type, whatever handle it was written with.
///
/// `%TAG` can bind any handle to `tag:yaml.org,2002:`, so matching `!!merge` literally misses
/// `!m!merge` under `%TAG !m! tag:yaml.org,2002:`. That matters: two merge keys have
/// order-dependent precedence. Deliberately wider than real tag resolution: a local `!merge`
/// bound to nothing is refused too, which costs nothing.
pub fn tag_is_merge(raw: &str) -> (is: bool)
    ensures
        is == is_merge_tag(raw@),
{
    if raw.eq("!<tag:yaml.org,2002:merge>") {
        return true;
    }
    let chars = chars_of(raw);
    if chars.len() == 0 || chars[0] != '!' {
        return false;
    }
    let rest = char_range(chars.as_slice(), 1, chars.len());
    assert(rest@ =~= raw@.drop_first());
    let suffix = suffix_after_last_bang(rest.as_slice());
    let merge = chars_of("merge");
    chars_equal(suffix.as_slice(), merge.as_slice())
}

/// Whether a source byte is a blank or a line break.
pub open spec fn is_trivia_space(b: u8) -> bool {
    b == 0x20 || b == 0x09 || b == 0x0A
}

/// The first offset at or after `i` that is neither a blank, a line break, nor part of a comment
/// line (a `#` reached after skipping blanks, up to its line break).
pub open spec fn scope_end_from(bytes: Seq<u8>, i: int) -> int
    decreases bytes.len() - i, 0int,
{
    if i < 0 || i >= bytes.len() {
        i
    } else if is_trivia_space(bytes[i]) {
        scope_end_from(bytes, i + 1)
    } else if bytes[i] == 0x23 {
        comment_end_from(bytes, i + 1)
    } else {
        i
    }
}

/// Inside a comment from `i`: skip to its line break, then carry on skipping trivia.
pub open spec fn comment_end_from(bytes: Seq<u8>, i: int) -> int
    decreases bytes.len() - i, 1int,
{
    if i < 0 || i >= bytes.len() {
        if i < 0 {
            i
        } else {
            scope_end_from(bytes, i)
        }
    } else if bytes[i] == 0x0A {
        scope_end_from(bytes, i)
    } else {
        comment_end_from(bytes, i + 1)
    }
}

/// The first offset at or after `from` that is neither whitespace nor part of a comment line,
/// saturated to `u32::MAX`.
///
/// Bounds the region whose comments a mapping's printing can claim.
pub fn trivia_scope_end(source: &str, from: u32) -> (end: u32)
    ensures
        scope_end_from(source.spec_bytes(), from as int) >= from,
        end == if scope_end_from(source.spec_bytes(), from as int) <= u32::MAX {
            scope_end_from(source.spec_bytes(), from as int) as u32
        } else {
            u32::MAX
        },
{
    let bytes = source.as_bytes();
    let mut offset: usize = from as usize;
    let mut in_comment = false;
    let mut done = false;
    while offset < bytes.len() && !done
        invariant
            bytes@ == source.spec_bytes(),
            offset >= from,
            offset <= bytes@.len() || offset == from,
            done ==> !in_comment && scope_end_from(bytes@, offset as int) == offset,
            scope_end_from(bytes@, from as int) == if in_comment {
                comment_end_from(bytes@, offset as int)
            } else {
                scope_end_from(bytes@, offset as int)
            },
        decreases bytes@.len() - offset, if done { 0int } else if in_comment { 2int } else { 1int },
    {
        let b = bytes[offset];
        if in_comment {
            if b == 0x0A {
                in_comment = false;
            } else {
                offset = offset + 1;
            }
        } else if b == 0x20 || b == 0x09 || b == 0x0A {
            offset = offset + 1;
        } else if b == 0x23 {
            in_comment = true;
            offset = offset + 1;
        } else {
            done = true;
        }
    }
    proof {
        if !done {
            assert(offset >= bytes@.len());
            assert(scope_end_from(bytes@, offset as int) == offset);
            assert(comment_end_from(bytes@, offset as int) == scope_end_from(bytes@, offset as int));
        }
    }
    if offset <= u32::MAX as usize {
        offset as u32
    } else {
        u32::MAX
    }
}

/// `starts` ascends.
pub open spec fn ascending(starts: Seq<u32>) -> bool {
    forall|i: int, j: int| 0 <= i < j < starts.len() ==> starts[i] <= starts[j]
}

/// Whether any offset in the ascending slice `starts` lies in `lo..hi`.
pub fn spans_any(starts: &[u32], lo: u32, hi: u32) -> (any: bool)
    requires
        ascending(starts@),
    ensures
        any == exists|i: int| 0 <= i < starts@.len() && lo <= #[trigger] starts@[i] < hi,
{
    // The partition point: the first offset not below `lo`.
    let mut low: usize = 0;
    let mut high: usize = starts.len();
    while low < high
        invariant
            low <= high <= starts@.len(),
            ascending(starts@),
            forall|i: int| 0 <= i < low ==> starts@[i] < lo,
            forall|i: int| high <= i < starts@.len() ==> starts@[i] >= lo,
        decreases high - low,
    {
        let middle = low + (high - low) / 2;
        if starts[middle] < lo {
            low = middle + 1;
        } else {
            high = middle;
        }
    }
    if low < starts.len() && starts[low] < hi {
        true
    } else {
        assert forall|i: int| 0 <= i < starts@.len() && lo <= starts@[i] implies starts@[i]
            >= hi by {
            if low < starts@.len() {
                assert(starts@[low as int] <= starts@[i]);
            }
        }
        false
    }
}

} // verus!
