//! Lists of names, and the comma-separated form in which the command line gives them.

use crate::text::{
    chars_of, is_blank, is_whitespace, lemma_trim_bounds, lemma_trim_is_tight, same_text, trim,
    trim_range,
};
use vstd::prelude::*;

verus! {

/// How many characters of `s` stand before its first `sep`; all of them where it holds none.
pub open spec fn span(s: Seq<char>, sep: char) -> nat
    decreases s.len(),
{
    if s.len() == 0 || s.first() == sep {
        0
    } else {
        1 + span(s.drop_first(), sep)
    }
}

/// The pieces into which the occurrences of `sep` cut `s`, in order. There is one piece more
/// than there are separators, so the empty text has one empty piece.
pub open spec fn split(s: Seq<char>, sep: char) -> Seq<Seq<char>>
    decreases s.len(),
{
    let n = span(s, sep);
    if n >= s.len() {
        seq![s]
    } else {
        seq![s.take(n as int)] + split(s.skip((n + 1) as int), sep)
    }
}

/// Trimming, as a function on pieces.
pub open spec fn trimming() -> spec_fn(Seq<char>) -> Seq<char> {
    |piece: Seq<char>| trim(piece)
}

/// Whether a piece holds anything, as a function on pieces.
pub open spec fn non_empty() -> spec_fn(Seq<char>) -> bool {
    |piece: Seq<char>| piece.len() > 0
}

/// The names that a comma-separated list gives: its pieces between commas, each trimmed, without
/// those of which nothing is left, in the order in which they stand.
pub open spec fn split_list(raw: Seq<char>) -> Seq<Seq<char>> {
    split(raw, ',').map_values(trimming()).filter(non_empty())
}

/// What the first piece of `raw` gives to the list: its trimmed form, or nothing where the
/// piece is blank.
pub open spec fn first_name(raw: Seq<char>) -> Seq<Seq<char>> {
    let name = trim(raw.take(span(raw, ',') as int));
    if name.len() > 0 {
        seq![name]
    } else {
        Seq::empty()
    }
}

/// `span` is the first place that holds the separator.
pub proof fn lemma_span(s: Seq<char>, sep: char)
    ensures
        span(s, sep) <= s.len(),
        forall|k: int| 0 <= k < span(s, sep) ==> #[trigger] s[k] != sep,
        span(s, sep) < s.len() ==> s[span(s, sep) as int] == sep,
    decreases s.len(),
{
    if s.len() > 0 && s.first() != sep {
        let rest = s.drop_first();
        lemma_span(rest, sep);
        assert forall|k: int| 0 <= k < span(s, sep) implies #[trigger] s[k] != sep by {
            if k > 0 {
                assert(rest[k - 1] == s[k]);
            }
        }
    }
}

/// A place that holds the separator, with none before it, is where `span` stops.
pub proof fn lemma_span_found(s: Seq<char>, sep: char, n: int)
    requires
        0 <= n <= s.len(),
        forall|k: int| 0 <= k < n ==> #[trigger] s[k] != sep,
        n == s.len() || s[n] == sep,
    ensures
        span(s, sep) == n,
{
    lemma_span(s, sep);
}

/// The list of `raw` is what its first piece gives, followed by the list of what stands after
/// the first comma.
pub proof fn lemma_split_list_step(raw: Seq<char>)
    ensures
        split_list(raw) == first_name(raw) + (if span(raw, ',') < raw.len() {
            split_list(raw.skip((span(raw, ',') + 1) as int))
        } else {
            Seq::empty()
        }),
{
    let n = span(raw, ',');
    lemma_span(raw, ',');
    if n < raw.len() {
        let piece = raw.take(n as int);
        let rest = split(raw.skip((n + 1) as int), ',');
        assert((seq![piece] + rest).map_values(trimming()) == seq![trim(piece)] + rest.map_values(
            trimming(),
        ));
        rest.map_values(trimming()).lemma_filter_prepend(trim(piece), non_empty());
    } else {
        assert(raw.take(n as int) == raw);
        assert(seq![raw].map_values(trimming()) == seq![trim(raw)]);
        Seq::<Seq<char>>::empty().lemma_filter_prepend(trim(raw), non_empty());
        reveal(Seq::filter);
    }
}

/// Every name of a list has at least one character, begins and ends with one that is no
/// whitespace, and holds no comma. So none of them is blank.
pub proof fn lemma_split_list_names(raw: Seq<char>)
    ensures
        forall|i: int|
            0 <= i < split_list(raw).len() ==> {
                let name = #[trigger] split_list(raw)[i];
                &&& name.len() > 0
                &&& !is_whitespace(name.first())
                &&& !is_whitespace(name.last())
                &&& !name.contains(',')
                &&& !is_blank(name)
            },
    decreases raw.len(),
{
    let n = span(raw, ',');
    lemma_span(raw, ',');
    lemma_split_list_step(raw);
    let piece = raw.take(n as int);
    let name = trim(piece);
    lemma_trim_is_tight(piece);
    let (start, end) = lemma_trim_bounds(piece);
    if n < raw.len() {
        lemma_split_list_names(raw.skip((n + 1) as int));
    }
}

/// Reads a comma-separated list: cuts `input` at its commas, trims each piece, leaves out the
/// pieces of which nothing is left, and keeps the others in their order.
pub fn parse_targets(input: &str) -> (list: Vec<String>)
    ensures
        list.deep_view() == split_list(input@),
{
    let chars = chars_of(input);
    let mut list: Vec<String> = Vec::new();
    let mut start: usize = 0;
    assert(chars@.skip(0) == chars@);
    loop
        invariant_except_break
            list.deep_view() + split_list(chars@.skip(start as int)) == split_list(chars@),
        invariant
            chars@ == input@,
            start <= chars@.len(),
        ensures
            list.deep_view() == split_list(chars@),
        decreases chars@.len() - start,
    {
        let mut end: usize = start;
        while end < chars.len() && chars[end] != ','
            invariant
                start <= end <= chars@.len(),
                forall|k: int| start <= k < end ==> #[trigger] chars@[k] != ',',
            decreases chars@.len() - end,
        {
            end += 1;
        }
        let ghost rest = chars@.skip(start as int);
        proof {
            lemma_span_found(rest, ',', end - start);
            lemma_split_list_step(rest);
            assert(rest.take(end - start) == chars@.subrange(start as int, end as int));
        }
        let (from, to) = trim_range(&chars, start, end);
        if from < to {
            let name = input.substring_char(from, to).to_owned();
            list.push(name);
        }
        if end == chars.len() {
            break;
        }
        assert(rest.skip(end - start + 1) == chars@.skip(end + 1));
        start = end + 1;
    }
    list
}

/// Tells whether `name` is one of `list`.
pub fn contains_name(list: &Vec<String>, name: &str) -> (found: bool)
    ensures
        found == list.deep_view().contains(name@),
{
    let mut i: usize = 0;
    while i < list.len()
        invariant
            i <= list.len(),
            forall|k: int| 0 <= k < i ==> #[trigger] list.deep_view()[k] != name@,
        decreases list.len() - i,
    {
        if same_text(list[i].as_str(), name) {
            assert(list.deep_view()[i as int] == name@);
            return true;
        }
        i += 1;
    }
    false
}

} // verus!
