//! Characters and strings: what counts as whitespace, trimming, and comparing text.

use vstd::prelude::*;

verus! {

/// Whether `c` carries the Unicode property `White_Space`.
///
/// These are the code points that `char::is_whitespace` and `str::trim` of the standard library
/// go by: the ASCII space and the controls U+0009 to U+000D, the next-line control U+0085, the
/// no-break space U+00A0, and the space and line-separator characters beyond Latin-1.
pub open spec fn is_whitespace(c: char) -> bool {
    let code = c as u32;
    ||| 0x0009 <= code <= 0x000D
    ||| code == 0x0020
    ||| code == 0x0085
    ||| code == 0x00A0
    ||| code == 0x1680
    ||| 0x2000 <= code <= 0x200A
    ||| code == 0x2028
    ||| code == 0x2029
    ||| code == 0x202F
    ||| code == 0x205F
    ||| code == 0x3000
}

/// Whether `s` holds nothing but whitespace; the empty sequence is blank.
pub open spec fn is_blank(s: Seq<char>) -> bool {
    forall|i: int| 0 <= i < s.len() ==> is_whitespace(#[trigger] s[i])
}

/// `s` without the whitespace it begins with.
pub open spec fn trim_start(s: Seq<char>) -> Seq<char>
    decreases s.len(),
{
    if s.len() > 0 && is_whitespace(s.first()) {
        trim_start(s.drop_first())
    } else {
        s
    }
}

/// `s` without the whitespace it ends with.
pub open spec fn trim_end(s: Seq<char>) -> Seq<char>
    decreases s.len(),
{
    if s.len() > 0 && is_whitespace(s.last()) {
        trim_end(s.drop_last())
    } else {
        s
    }
}

/// `s` without the whitespace around it. Whitespace inside stays.
pub open spec fn trim(s: Seq<char>) -> Seq<char> {
    trim_end(trim_start(s))
}

/// The ASCII capitals become small letters; every other character stays as it is.
pub open spec fn ascii_lower(c: char) -> char {
    if 'A' <= c <= 'Z' {
        ((c as u32) + 32) as char
    } else {
        c
    }
}

/// Whether `a` and `b` are the same text once the case of ASCII letters is set aside.
pub open spec fn eq_ignore_ascii_case(a: Seq<char>, b: Seq<char>) -> bool {
    &&& a.len() == b.len()
    &&& forall|i: int| 0 <= i < a.len() ==> ascii_lower(#[trigger] a[i]) == ascii_lower(b[i])
}

/// Skipping whitespace from `lo` up to `start` is what `trim_start` does to `s[lo..hi]`.
pub proof fn lemma_trim_start_range(s: Seq<char>, lo: int, start: int, hi: int)
    requires
        0 <= lo <= start <= hi <= s.len(),
        forall|k: int| lo <= k < start ==> is_whitespace(#[trigger] s[k]),
        start == hi || !is_whitespace(s[start]),
    ensures
        trim_start(s.subrange(lo, hi)) == s.subrange(start, hi),
    decreases start - lo,
{
    if lo < start {
        assert(s.subrange(lo, hi).drop_first() == s.subrange(lo + 1, hi));
        lemma_trim_start_range(s, lo + 1, start, hi);
    }
}

/// Dropping whitespace from `hi` down to `end` is what `trim_end` does to `s[lo..hi]`.
pub proof fn lemma_trim_end_range(s: Seq<char>, lo: int, end: int, hi: int)
    requires
        0 <= lo <= end <= hi <= s.len(),
        forall|k: int| end <= k < hi ==> is_whitespace(#[trigger] s[k]),
        end == lo || !is_whitespace(s[end - 1]),
    ensures
        trim_end(s.subrange(lo, hi)) == s.subrange(lo, end),
    decreases hi - end,
{
    if end < hi {
        assert(s.subrange(lo, hi).drop_last() == s.subrange(lo, hi - 1));
        lemma_trim_end_range(s, lo, end, hi - 1);
    }
}

/// `trim_start(s)` is `s` from its first character that is no whitespace on. The lemma gives
/// the place of that character; it is the length of `s` where `s` is blank.
pub proof fn lemma_trim_start_bound(s: Seq<char>) -> (start: int)
    ensures
        0 <= start <= s.len(),
        trim_start(s) == s.subrange(start, s.len() as int),
        forall|k: int| 0 <= k < start ==> is_whitespace(#[trigger] s[k]),
        start < s.len() ==> !is_whitespace(s[start]),
    decreases s.len(),
{
    if s.len() > 0 && is_whitespace(s.first()) {
        let rest = s.drop_first();
        let start = lemma_trim_start_bound(rest);
        assert forall|k: int| 0 <= k < start + 1 implies is_whitespace(#[trigger] s[k]) by {
            if k > 0 {
                assert(s[k] == rest[k - 1]);
            }
        }
        start + 1
    } else {
        0
    }
}

/// `trim_end(s)` is `s` up to its last character that is no whitespace. The lemma gives the
/// place after that character; it is 0 where `s` is blank.
pub proof fn lemma_trim_end_bound(s: Seq<char>) -> (end: int)
    ensures
        0 <= end <= s.len(),
        trim_end(s) == s.subrange(0, end),
        forall|k: int| end <= k < s.len() ==> is_whitespace(#[trigger] s[k]),
        0 < end ==> !is_whitespace(s[end - 1]),
    decreases s.len(),
{
    if s.len() > 0 && is_whitespace(s.last()) {
        let rest = s.drop_last();
        let end = lemma_trim_end_bound(rest);
        assert forall|k: int| end <= k < s.len() implies is_whitespace(#[trigger] s[k]) by {
            if k < rest.len() {
                assert(s[k] == rest[k]);
            }
        }
        end
    } else {
        s.len() as int
    }
}

/// `trim(s)` is the stretch of `s` between two places: before the first and from the second on
/// `s` holds only whitespace, and where the stretch is not empty it begins and ends with a
/// character that is no whitespace.
pub proof fn lemma_trim_bounds(s: Seq<char>) -> (bounds: (int, int))
    ensures
        0 <= bounds.0 <= bounds.1 <= s.len(),
        trim(s) == s.subrange(bounds.0, bounds.1),
        forall|k: int| 0 <= k < bounds.0 ==> is_whitespace(#[trigger] s[k]),
        forall|k: int| bounds.1 <= k < s.len() ==> is_whitespace(#[trigger] s[k]),
        bounds.0 < bounds.1 ==> !is_whitespace(s[bounds.0]) && !is_whitespace(s[bounds.1 - 1]),
{
    let start = lemma_trim_start_bound(s);
    let tail = s.subrange(start, s.len() as int);
    let kept = lemma_trim_end_bound(tail);
    assert forall|k: int| start + kept <= k < s.len() implies is_whitespace(#[trigger] s[k]) by {
        assert(s[k] == tail[k - start]);
    }
    (start, start + kept)
}

/// Trimming leaves nothing exactly of a blank text. What it leaves of another begins and ends
/// with a character that is no whitespace, so that trimming it once more changes nothing.
pub proof fn lemma_trim_is_tight(s: Seq<char>)
    ensures
        trim(s).len() == 0 <==> is_blank(s),
        trim(s).len() > 0 ==> !is_whitespace(trim(s).first()) && !is_whitespace(trim(s).last()),
        trim(trim(s)) == trim(s),
{
    let (start, end) = lemma_trim_bounds(s);
    if start == end {
        assert forall|i: int| 0 <= i < s.len() implies is_whitespace(#[trigger] s[i]) by {}
    }
}

/// Tells whether `c` is whitespace.
pub fn whitespace_char(c: char) -> (white: bool)
    ensures
        white == is_whitespace(c),
{
    let code: u32 = c as u32;
    (0x0009 <= code && code <= 0x000D) || code == 0x0020 || code == 0x0085 || code == 0x00A0
        || code == 0x1680 || (0x2000 <= code && code <= 0x200A) || code == 0x2028 || code == 0x2029
        || code == 0x202F || code == 0x205F || code == 0x3000
}

/// Turns an ASCII capital into its small letter and hands back every other character as it is.
pub fn lower_ascii_char(c: char) -> (lower: char)
    ensures
        lower == ascii_lower(c),
{
    if 'A' <= c && c <= 'Z' {
        let code: u8 = c as u8 + 32;
        code as char
    } else {
        c
    }
}

/// The characters of `s`, in order.
pub fn chars_of(s: &str) -> (chars: Vec<char>)
    ensures
        chars@ == s@,
{
    let mut chars: Vec<char> = Vec::new();
    for c in it: s.chars()
        invariant
            it.seq() == s@,
            chars@ == it.seq().take(it.index()),
    {
        chars.push(c);
    }
    chars
}

/// Tells whether `a` and `b` hold the same characters.
pub fn same_text(a: &str, b: &str) -> (same: bool)
    ensures
        same == (a@ == b@),
{
    let x = a.as_bytes();
    let y = b.as_bytes();
    proof {
        // Two texts with the same bytes are the same text: decoding gives each of them back.
        vstd::utf8::encode_utf8_decode_utf8(a@);
        vstd::utf8::encode_utf8_decode_utf8(b@);
    }
    if x.len() != y.len() {
        return false;
    }
    let mut i: usize = 0;
    while i < x.len()
        invariant
            (a@ == b@) <==> (x@ == y@),
            x@.len() == y@.len(),
            i <= x@.len(),
            forall|k: int| 0 <= k < i ==> x@[k] == y@[k],
        decreases x@.len() - i,
    {
        if x[i] != y[i] {
            return false;
        }
        i += 1;
    }
    assert(x@ =~= y@);
    true
}

/// Tells whether `a` and `b` are the same text but for the case of ASCII letters.
pub fn same_text_ignoring_ascii_case(a: &str, b: &str) -> (same: bool)
    ensures
        same == eq_ignore_ascii_case(a@, b@),
{
    let x = chars_of(a);
    let y = chars_of(b);
    if x.len() != y.len() {
        return false;
    }
    let mut i: usize = 0;
    while i < x.len()
        invariant
            x@ == a@,
            y@ == b@,
            x@.len() == y@.len(),
            i <= x@.len(),
            forall|k: int| 0 <= k < i ==> ascii_lower(#[trigger] x@[k]) == ascii_lower(y@[k]),
        decreases x@.len() - i,
    {
        if lower_ascii_char(x[i]) != lower_ascii_char(y[i]) {
            return false;
        }
        i += 1;
    }
    true
}

/// Finds where the trimmed form of `chars[lo..hi]` begins and ends.
pub(crate) fn trim_range(chars: &Vec<char>, lo: usize, hi: usize) -> (bounds: (usize, usize))
    requires
        lo <= hi <= chars@.len(),
    ensures
        lo <= bounds.0 <= bounds.1 <= hi,
        chars@.subrange(bounds.0 as int, bounds.1 as int) == trim(chars@.subrange(lo as int, hi as int)),
{
    let mut start: usize = lo;
    while start < hi && whitespace_char(chars[start])
        invariant
            lo <= start <= hi <= chars@.len(),
            forall|k: int| lo <= k < start ==> is_whitespace(#[trigger] chars@[k]),
        decreases hi - start,
    {
        start += 1;
    }
    let mut end: usize = hi;
    while start < end && whitespace_char(chars[end - 1])
        invariant
            start <= end <= hi <= chars@.len(),
            forall|k: int| end <= k < hi ==> is_whitespace(#[trigger] chars@[k]),
        decreases end - start,
    {
        end -= 1;
    }
    proof {
        lemma_trim_start_range(chars@, lo as int, start as int, hi as int);
        lemma_trim_end_range(chars@, start as int, end as int, hi as int);
    }
    (start, end)
}

/// `s` without the whitespace around it.
pub fn trimmed(s: &str) -> (t: String)
    ensures
        t@ == trim(s@),
{
    let chars = chars_of(s);
    let (start, end) = trim_range(&chars, 0, chars.len());
    assert(chars@.subrange(0, chars@.len() as int) == chars@);
    s.substring_char(start, end).to_owned()
}

} // verus!
