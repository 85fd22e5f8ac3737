//! Splitting text into words at runs of whitespace.
use vstd::prelude::*;

verus! {

/// The characters with the Unicode `White_Space` property.
pub open spec fn is_whitespace_spec(c: char) -> bool {
    ('\u{9}' <= c && c <= '\u{d}') || c == ' ' || c == '\u{85}' || c == '\u{a0}'
        || c == '\u{1680}' || ('\u{2000}' <= c && c <= '\u{200a}') || c == '\u{2028}'
        || c == '\u{2029}' || c == '\u{202f}' || c == '\u{205f}' || c == '\u{3000}'
}

pub fn is_whitespace(c: char) -> (r: bool)
    ensures
        r == is_whitespace_spec(c),
{
    ('\u{9}' <= c && c <= '\u{d}') || c == ' ' || c == '\u{85}' || c == '\u{a0}'
        || c == '\u{1680}' || ('\u{2000}' <= c && c <= '\u{200a}') || c == '\u{2028}'
        || c == '\u{2029}' || c == '\u{202f}' || c == '\u{205f}' || c == '\u{3000}'
}

/// `[a, b)` is a maximal run of non-whitespace characters of `t`.
pub open spec fn is_word_span(t: Seq<char>, a: int, b: int) -> bool {
    &&& 0 <= a < b <= t.len()
    &&& forall|i: int| a <= i < b ==> !is_whitespace_spec(#[trigger] t[i])
    &&& a == 0 || is_whitespace_spec(t[a - 1])
    &&& b == t.len() || is_whitespace_spec(t[b])
}

/// `spans` lists, left to right, every maximal run of non-whitespace
/// characters of `t`, and nothing else.
pub open spec fn are_word_spans(t: Seq<char>, spans: Seq<(usize, usize)>) -> bool {
    &&& forall|k: int| 0 <= k < spans.len() ==> is_word_span(t, #[trigger] spans[k].0 as int, spans[k].1 as int)
    &&& forall|k: int| 0 <= k < spans.len() - 1 ==> #[trigger] spans[k].1 < spans[k + 1].0
    &&& forall|i: int|
        0 <= i < t.len() && !is_whitespace_spec(#[trigger] t[i]) ==> exists|k: int|
            0 <= k < spans.len() && (#[trigger] spans[k]).0 <= i < spans[k].1
}

/// The character ranges of the words of `text`: consecutive whitespace
/// separates words, and leading or trailing whitespace yields no empty word.
pub fn word_spans(text: &str) -> (r: Vec<(usize, usize)>)
    ensures
        are_word_spans(text@, r@),
{
    let n = text.unicode_len();
    let ghost t = text@;
    let mut spans: Vec<(usize, usize)> = Vec::new();
    let mut i: usize = 0;
    while i < n
        invariant
            n == t.len(),
            t == text@,
            0 <= i <= n,
            forall|k: int| 0 <= k < spans.len() ==> is_word_span(t, #[trigger] spans@[k].0 as int, spans@[k].1 as int),
            forall|k: int| 0 <= k < spans.len() - 1 ==> #[trigger] spans@[k].1 < spans@[k + 1].0,
            spans.len() > 0 ==> spans@.last().1 <= i,
            spans.len() > 0 && spans@.last().1 == i ==> i == n || is_whitespace_spec(t[i as int]),
            i == 0 || is_whitespace_spec(t[i - 1]) || (spans.len() > 0 && spans@.last().1 == i),
            forall|j: int|
                0 <= j < i && !is_whitespace_spec(#[trigger] t[j]) ==> exists|k: int|
                    0 <= k < spans.len() && (#[trigger] spans@[k]).0 <= j < spans@[k].1,
        decreases n - i,
    {
        let c = text.get_char(i);
        if is_whitespace(c) {
            i = i + 1;
        } else {
            let start = i;
            while i < n && !is_whitespace(text.get_char(i))
                invariant
                    n == t.len(),
                    t == text@,
                    start <= i <= n,
                    forall|j: int| start <= j < i ==> !is_whitespace_spec(#[trigger] t[j]),
                decreases n - i,
            {
                i = i + 1;
            }
            let ghost old_spans = spans@;
            spans.push((start, i));
            proof {
                assert forall|j: int|
                    0 <= j < i && !is_whitespace_spec(#[trigger] t[j]) implies exists|k: int|
                        0 <= k < spans.len() && (#[trigger] spans@[k]).0 <= j < spans@[k].1 by {
                    if j < start {
                        let k = choose|k: int| 0 <= k < old_spans.len() && (#[trigger] old_spans[k]).0 <= j < old_spans[k].1;
                        assert(spans@[k] == old_spans[k]);
                    } else {
                        assert(spans@[spans.len() - 1] == (start, i));
                    }
                }
            }
        }
    }
    spans
}

} // verus!
