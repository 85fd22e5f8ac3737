//! Sets of characters as compact intervals of character codes.
use vstd::prelude::*;

verus! {

/// A closed interval of character codes.
#[derive(Clone, Copy, Debug)]
pub struct CodepointRange {
    pub start: u32,
    pub end: u32,
}

/// Character codes as compact intervals, for batched font queries.
#[derive(Clone, Debug)]
pub struct CodepointRanges {
    pub ranges: Vec<CodepointRange>,
}

/// Some interval of `ranges` holds `c`.
pub open spec fn in_ranges(ranges: Seq<CodepointRange>, c: u32) -> bool {
    exists|k: int| 0 <= k < ranges.len() && (#[trigger] ranges[k]).start <= c <= ranges[k].end
}

/// The intervals are non-empty, ascending, and neither overlap nor touch.
pub open spec fn ranges_compact(ranges: Seq<CodepointRange>) -> bool {
    &&& forall|k: int| 0 <= k < ranges.len() ==> (#[trigger] ranges[k]).start <= ranges[k].end
    &&& forall|k: int| 0 <= k < ranges.len() - 1 ==> (#[trigger] ranges[k]).end + 1 < ranges[k + 1].start
}

/// Some character of `chars` has code `c`.
pub open spec fn has_code(chars: Seq<char>, c: u32) -> bool {
    exists|j: int| 0 <= j < chars.len() && (#[trigger] chars[j]) as u32 == c
}

/// The codes of `chars` strictly ascend.
pub open spec fn strictly_ascending(chars: Seq<char>) -> bool {
    forall|i: int, j: int| 0 <= i < j < chars.len() ==> (chars[i] as u32) < (chars[j] as u32)
}

/// Adds `c` to a strictly ascending list of characters, unless it is there.
fn insert_char(v: &mut Vec<char>, c: char)
    requires
        strictly_ascending(old(v)@),
    ensures
        strictly_ascending(final(v)@),
        forall|x: u32| #[trigger] has_code(final(v)@, x) <==> has_code(old(v)@, x) || x == c as u32,
{
    let ghost before = v@;
    let mut p: usize = 0;
    while p < v.len() && (v[p] as u32) < (c as u32)
        invariant
            v@ == before,
            0 <= p <= v.len(),
            forall|j: int| 0 <= j < p ==> (v@[j] as u32) < (c as u32),
        decreases v.len() - p,
    {
        p = p + 1;
    }
    if p < v.len() && v[p] as u32 == c as u32 {
        proof {
            assert forall|x: u32| #[trigger] has_code(v@, x) <==> has_code(before, x) || x == c as u32 by {
                if x == c as u32 {
                    assert(v@[p as int] as u32 == x);
                }
            }
        }
        return;
    }
    v.insert(p, c);
    proof {
        assert(v@ == before.insert(p as int, c));
        assert forall|x: u32| #[trigger] has_code(v@, x) <==> has_code(before, x) || x == c as u32 by {
            if has_code(v@, x) {
                let j = choose|j: int| 0 <= j < v@.len() && (#[trigger] v@[j]) as u32 == x;
                if j < p {
                    assert(before[j] == v@[j]);
                } else if j > p {
                    assert(before[j - 1] == v@[j]);
                }
            }
            if has_code(before, x) {
                let j = choose|j: int| 0 <= j < before.len() && (#[trigger] before[j]) as u32 == x;
                if j < p {
                    assert(before[j] == v@[j]);
                } else {
                    assert(before[j] == v@[j + 1]);
                }
            }
            if x == c as u32 {
                assert(v@[p as int] == c);
            }
        }
    }
}

/// The characters of `text` and the space, once each, in ascending order.
pub fn sorted_chars_with_space(text: &str) -> (r: Vec<char>)
    ensures
        strictly_ascending(r@),
        forall|x: u32| #[trigger] has_code(r@, x) <==> has_code(text@, x) || x == ' ' as u32,
{
    let mut chars: Vec<char> = Vec::new();
    chars.push(' ');
    proof {
        assert(chars@[0] as u32 == ' ' as u32);
    }
    let n = text.unicode_len();
    let mut i: usize = 0;
    while i < n
        invariant
            n == text@.len(),
            0 <= i <= n,
            strictly_ascending(chars@),
            forall|x: u32| #[trigger] has_code(chars@, x) <==> has_code(text@.take(i as int), x) || x == ' ' as u32,
        decreases n - i,
    {
        let c = text.get_char(i);
        insert_char(&mut chars, c);
        proof {
            let prev = text@.take(i as int);
            let next = text@.take(i + 1);
            assert forall|x: u32| #[trigger] has_code(next, x) <==> has_code(prev, x) || x == c as u32 by {
                if has_code(next, x) {
                    let j = choose|j: int| 0 <= j < next.len() && (#[trigger] next[j]) as u32 == x;
                    if j < i {
                        assert(prev[j] == next[j]);
                    }
                }
                if has_code(prev, x) {
                    let j = choose|j: int| 0 <= j < prev.len() && (#[trigger] prev[j]) as u32 == x;
                    assert(prev[j] == next[j]);
                }
                if x == c as u32 {
                    assert(next[i as int] == c);
                }
            }
        }
        i = i + 1;
    }
    proof {
        assert(text@.take(i as int) == text@);
    }
    chars
}

/// The compact intervals holding the characters of `text` and the space.
pub fn text_codepoint_ranges(text: &str) -> (r: CodepointRanges)
    ensures
        ranges_compact(r.ranges@),
        forall|c: u32| #[trigger] in_ranges(r.ranges@, c) <==> has_code(text@, c) || c == ' ' as u32,
{
    let chars = sorted_chars_with_space(text);
    CodepointRanges::from_sorted_chars(&chars)
}

impl CodepointRanges {
    /// The compact intervals that hold exactly the codes of `chars`, which
    /// are in ascending order and may repeat.
    pub fn from_sorted_chars(chars: &Vec<char>) -> (r: CodepointRanges)
        requires
            forall|i: int, j: int| 0 <= i < j < chars.len() ==> (chars@[i] as u32) <= (chars@[j] as u32),
        ensures
            ranges_compact(r.ranges@),
            forall|c: u32| #[trigger] in_ranges(r.ranges@, c) <==> has_code(chars@, c),
    {
        let mut ranges: Vec<CodepointRange> = Vec::new();
        if chars.len() == 0 {
            proof {
                assert forall|c: u32| #[trigger] in_ranges(ranges@, c) <==> has_code(chars@, c) by {}
            }
            return CodepointRanges { ranges };
        }
        let mut start: u32 = chars[0] as u32;
        let mut end: u32 = start;
        let mut i: usize = 1;
        proof {
            assert(chars@.take(1)[0] as u32 == start);
            assert(has_code(chars@.take(1), start));
        }
        while i < chars.len()
            invariant
                1 <= i <= chars.len(),
                forall|a: int, b: int| 0 <= a < b < chars.len() ==> (chars@[a] as u32) <= (chars@[b] as u32),
                start <= end,
                end == chars@[i - 1] as u32,
                ranges_compact(ranges@),
                ranges.len() > 0 ==> ranges@.last().end + 1 < start,
                forall|x: u32| start <= x <= end ==> has_code(chars@.take(i as int), x),
                forall|x: u32| #[trigger] in_ranges(ranges@, x) ==> has_code(chars@.take(i as int), x),
                forall|j: int|
                    0 <= j < i ==> in_ranges(ranges@, #[trigger] chars@[j] as u32) || start <= chars@[j] as u32
                        <= end,
            decreases chars.len() - i,
        {
            let c = chars[i] as u32;
            let ghost prev = chars@.take(i as int);
            let ghost next = chars@.take(i + 1);
            proof {
                assert(next[i as int] as u32 == c);
                assert forall|x: u32| has_code(prev, x) implies has_code(next, x) by {
                    let j = choose|j: int| 0 <= j < prev.len() && (#[trigger] prev[j]) as u32 == x;
                    assert(next[j] == prev[j]);
                }
            }
            if c - end <= 1 {
                end = c;
            } else {
                let ghost old_ranges = ranges@;
                ranges.push(CodepointRange { start, end });
                proof {
                    assert forall|x: u32| #[trigger] in_ranges(ranges@, x) implies has_code(next, x) by {
                        let k = choose|k: int| 0 <= k < ranges@.len() && (#[trigger] ranges@[k]).start <= x <= ranges@[k].end;
                        if k < old_ranges.len() {
                            assert(old_ranges[k] == ranges@[k]);
                            assert(in_ranges(old_ranges, x));
                        }
                    }
                    assert forall|j: int| 0 <= j < i implies in_ranges(ranges@, #[trigger] chars@[j] as u32) || c
                        <= chars@[j] as u32 <= c by {
                        let x = chars@[j] as u32;
                        if in_ranges(old_ranges, x) {
                            let k = choose|k: int| 0 <= k < old_ranges.len() && (#[trigger] old_ranges[k]).start <= x <= old_ranges[k].end;
                            assert(ranges@[k] == old_ranges[k]);
                        } else {
                            assert(ranges@[ranges.len() - 1].start <= x <= ranges@[ranges.len() - 1].end);
                        }
                    }
                }
                start = c;
                end = c;
            }
            i = i + 1;
        }
        let ghost old_ranges = ranges@;
        ranges.push(CodepointRange { start, end });
        proof {
            assert(chars@.take(i as int) == chars@);
            assert forall|c: u32| #[trigger] in_ranges(ranges@, c) <==> has_code(chars@, c) by {
                if in_ranges(ranges@, c) {
                    let k = choose|k: int| 0 <= k < ranges@.len() && (#[trigger] ranges@[k]).start <= c <= ranges@[k].end;
                    if k < old_ranges.len() {
                        assert(old_ranges[k] == ranges@[k]);
                        assert(in_ranges(old_ranges, c));
                    }
                }
                if has_code(chars@, c) {
                    let j = choose|j: int| 0 <= j < chars@.len() && (#[trigger] chars@[j]) as u32 == c;
                    if in_ranges(old_ranges, c) {
                        let k = choose|k: int| 0 <= k < old_ranges.len() && (#[trigger] old_ranges[k]).start <= c <= old_ranges[k].end;
                        assert(ranges@[k] == old_ranges[k]);
                    } else {
                        assert(ranges@[ranges.len() - 1].start <= c <= ranges@[ranges.len() - 1].end);
                    }
                }
            }
        }
        CodepointRanges { ranges }
    }
}

} // verus!
