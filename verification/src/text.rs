//! Sequences of characters: occurrences, runs, trimming and positions.

use vstd::prelude::*;
use crate::chars::CharClass;

verus! {

/// `String::push`: the character is appended at the end.
pub assume_specification[ std::string::String::push ](s: &mut std::string::String, c: char)
    ensures
        final(s)@ == old(s)@.push(c),
;

/// Whether the characters of `pattern` stand in `s` from index `at` on.
pub open spec fn occurs_at(s: Seq<char>, at: int, pattern: Seq<char>) -> bool {
    &&& 0 <= at
    &&& at + pattern.len() <= s.len()
    &&& s.subrange(at, at + pattern.len()) == pattern
}

/// Whether `at` is the first place at or after `from` where `pattern` stands
/// in `s`.
pub open spec fn is_first_occurrence(s: Seq<char>, from: int, pattern: Seq<char>, at: int) -> bool {
    &&& from <= at
    &&& occurs_at(s, at, pattern)
    &&& forall|k: int| from <= k < at ==> !occurs_at(s, k, pattern)
}

/// The first place at or after `from` where `pattern` stands in `s`, if it
/// stands anywhere there.
pub open spec fn first_occurrence(s: Seq<char>, from: int, pattern: Seq<char>) -> Option<int> {
    if exists|at: int| is_first_occurrence(s, from, pattern, at) {
        Some(choose|at: int| is_first_occurrence(s, from, pattern, at))
    } else {
        None
    }
}

/// Where the run of characters of `class` that starts in `s` at `from` ends:
/// the index of the first character from there on that is not of the class,
/// or the length of `s`.
pub open spec fn run_end(s: Seq<char>, from: int, class: CharClass) -> int
    decreases s.len() - from,
{
    if 0 <= from < s.len() && class.contains(s[from]) {
        run_end(s, from + 1, class)
    } else {
        from
    }
}

/// Where the run of characters of `class` that ends in `s` before `to` starts,
/// looking no further back than `low`.
pub open spec fn run_start(s: Seq<char>, low: int, to: int, class: CharClass) -> int
    decreases to - low,
{
    if low < to <= s.len() && 0 < to && class.contains(s[to - 1]) {
        run_start(s, low, to - 1, class)
    } else {
        to
    }
}

/// `text` without the whitespace it starts with.
pub open spec fn trim_start(text: Seq<char>) -> Seq<char> {
    text.subrange(run_end(text, 0, CharClass::Space), text.len() as int)
}

/// `text` without the whitespace it starts with and the whitespace it ends
/// with.
pub open spec fn trim(text: Seq<char>) -> Seq<char> {
    let start = run_end(text, 0, CharClass::Space);
    text.subrange(start, run_start(text, start, text.len() as int, CharClass::Space))
}

/// The line, counted from 1, of the character of `s` at index `at`: one more
/// than the number of line feeds before it.
pub open spec fn line_at(s: Seq<char>, at: int) -> int
    decreases at,
{
    if at <= 0 {
        1
    } else if s[at - 1] == '\n' {
        line_at(s, at - 1) + 1
    } else {
        line_at(s, at - 1)
    }
}

/// The column, counted from 1, of the character of `s` at index `at`: one
/// more than the number of characters between it and the line feed before it,
/// or the start of `s`.
pub open spec fn column_at(s: Seq<char>, at: int) -> int
    decreases at,
{
    if at <= 0 {
        1
    } else if s[at - 1] == '\n' {
        1
    } else {
        column_at(s, at - 1) + 1
    }
}

/// An occurrence of a pattern of at most three characters, character by
/// character.
pub proof fn lemma_occurs_at_short(s: Seq<char>, at: int, pattern: Seq<char>)
    requires
        pattern.len() <= 3,
    ensures
        occurs_at(s, at, pattern) <==> {
            &&& 0 <= at
            &&& at + pattern.len() <= s.len()
            &&& pattern.len() >= 1 ==> s[at] == pattern[0]
            &&& pattern.len() >= 2 ==> s[at + 1] == pattern[1]
            &&& pattern.len() >= 3 ==> s[at + 2] == pattern[2]
        },
{
    if 0 <= at && at + pattern.len() <= s.len() {
        let sub = s.subrange(at, at + pattern.len());
        if sub == pattern {
            if pattern.len() >= 1 {
                assert(sub[0] == s[at]);
            }
            if pattern.len() >= 2 {
                assert(sub[1] == s[at + 1]);
            }
            if pattern.len() >= 3 {
                assert(sub[2] == s[at + 2]);
            }
        } else if (pattern.len() >= 1 ==> s[at] == pattern[0]) && (pattern.len() >= 2 ==> s[at + 1]
            == pattern[1]) && (pattern.len() >= 3 ==> s[at + 2] == pattern[2]) {
            assert(sub =~= pattern);
        }
    }
}

/// A first occurrence is the first occurrence.
pub proof fn lemma_first_occurrence_found(s: Seq<char>, from: int, pattern: Seq<char>, at: int)
    requires
        is_first_occurrence(s, from, pattern, at),
    ensures
        first_occurrence(s, from, pattern) == Some(at),
{
    let chosen = choose|at: int| is_first_occurrence(s, from, pattern, at);
    assert(is_first_occurrence(s, from, pattern, chosen));
    if chosen < at {
        assert(!occurs_at(s, chosen, pattern));
    }
    if at < chosen {
        assert(!occurs_at(s, at, pattern));
    }
}

/// Where there is no occurrence, there is no first one.
pub proof fn lemma_first_occurrence_none(s: Seq<char>, from: int, pattern: Seq<char>)
    requires
        forall|k: int| from <= k ==> !occurs_at(s, k, pattern),
    ensures
        first_occurrence(s, from, pattern) is None,
{
}

/// A run ends within the text, holds only characters of its class, and is
/// followed by none.
pub proof fn lemma_run_end(s: Seq<char>, from: int, class: CharClass)
    requires
        0 <= from <= s.len(),
    ensures
        from <= run_end(s, from, class) <= s.len(),
        forall|k: int| from <= k < run_end(s, from, class) ==> class.contains(#[trigger] s[k]),
        run_end(s, from, class) < s.len() ==> !class.contains(s[run_end(s, from, class)]),
    decreases s.len() - from,
{
    if from < s.len() && class.contains(s[from]) {
        lemma_run_end(s, from + 1, class);
    }
}

/// The end of a run is where the class first fails.
pub proof fn lemma_run_end_is(s: Seq<char>, from: int, class: CharClass, end: int)
    requires
        0 <= from <= end <= s.len(),
        forall|k: int| from <= k < end ==> class.contains(#[trigger] s[k]),
        end < s.len() ==> !class.contains(s[end]),
    ensures
        run_end(s, from, class) == end,
    decreases end - from,
{
    if from < end {
        assert(class.contains(s[from]));
        lemma_run_end_is(s, from + 1, class, end);
    }
}

/// Looking back from `to`, the run starts where the class first fails, or at
/// `low`.
pub proof fn lemma_run_start_is(s: Seq<char>, low: int, to: int, class: CharClass, start: int)
    requires
        0 <= low <= start <= to <= s.len(),
        forall|k: int| start <= k < to ==> class.contains(#[trigger] s[k]),
        low < start ==> !class.contains(s[start - 1]),
    ensures
        run_start(s, low, to, class) == start,
    decreases to - start,
{
    if start < to {
        assert(class.contains(s[to - 1]));
        lemma_run_start_is(s, low, to - 1, class, start);
    }
}

/// What `first_occurrence` gives is the first occurrence, and it gives none
/// only where there is no occurrence.
pub proof fn lemma_first_occurrence(s: Seq<char>, from: int, pattern: Seq<char>)
    ensures
        match first_occurrence(s, from, pattern) {
            Some(at) => is_first_occurrence(s, from, pattern, at),
            None => forall|k: int| from <= k ==> !occurs_at(s, k, pattern),
        },
{
    if first_occurrence(s, from, pattern) is None {
        assert forall|k: int| from <= k implies !occurs_at(s, k, pattern) by {
            if occurs_at(s, k, pattern) {
                lemma_first_occurrence_exists(s, from, pattern, k);
            }
        }
    }
}

/// Where a pattern occurs, it occurs for the first time.
pub proof fn lemma_first_occurrence_exists(s: Seq<char>, from: int, pattern: Seq<char>, at: int)
    requires
        from <= at,
        occurs_at(s, at, pattern),
    ensures
        exists|first: int| is_first_occurrence(s, from, pattern, first),
    decreases at - from,
{
    if exists|k: int| from <= k < at && occurs_at(s, k, pattern) {
        let k = choose|k: int| from <= k < at && occurs_at(s, k, pattern);
        lemma_first_occurrence_exists(s, from, pattern, k);
    } else {
        assert(is_first_occurrence(s, from, pattern, at));
    }
}

/// A run goes on through characters of its class: from any place within it,
/// it ends where it ends.
pub proof fn lemma_run_end_within(s: Seq<char>, from: int, class: CharClass, within: int)
    requires
        0 <= from <= within <= s.len(),
        forall|k: int| from <= k < within ==> class.contains(#[trigger] s[k]),
    ensures
        run_end(s, from, class) == run_end(s, within, class),
    decreases within - from,
{
    if from < within {
        assert(class.contains(s[from]));
        lemma_run_end_within(s, from + 1, class, within);
    }
}

/// Lines and columns count from 1 and grow by at most one with each
/// character.
pub proof fn lemma_position_bounds(s: Seq<char>, at: int)
    requires
        0 <= at,
    ensures
        1 <= line_at(s, at) <= at + 1,
        1 <= column_at(s, at) <= at + 1,
    decreases at,
{
    if at > 0 {
        lemma_position_bounds(s, at - 1);
    }
}

/// The characters of `text`, one by one.
pub fn chars_of(text: &str) -> (chars: Vec<char>)
    ensures
        chars@ == text@,
{
    let mut chars: Vec<char> = Vec::new();
    for c in it: text.chars()
        invariant
            chars@ == it.seq().take(it.index()),
    {
        chars.push(c);
    }
    chars
}

/// The characters of `chars` from index `from` up to index `to`, as a string.
pub fn string_of(chars: &Vec<char>, from: usize, to: usize) -> (text: String)
    requires
        from <= to <= chars.len(),
    ensures
        text@ == chars@.subrange(from as int, to as int),
{
    let mut text = String::new();
    let mut i: usize = from;
    while i < to
        invariant
            from <= i <= to <= chars.len(),
            text@ == chars@.subrange(from as int, i as int),
        decreases to - i,
    {
        text.push(chars[i]);
        i += 1;
    }
    text
}

/// The index at which the run of characters of `class` that starts in
/// `chars` at `from` ends.
pub fn end_of_run(chars: &Vec<char>, from: usize, class: CharClass) -> (end: usize)
    requires
        from <= chars.len(),
    ensures
        end == run_end(chars@, from as int, class),
        from <= end <= chars.len(),
{
    let mut end: usize = from;
    while end < chars.len() && class.admits(chars[end])
        invariant
            from <= end <= chars.len(),
            forall|k: int| from <= k < end ==> class.contains(#[trigger] chars@[k]),
        decreases chars.len() - end,
    {
        end += 1;
    }
    proof {
        lemma_run_end_is(chars@, from as int, class, end as int);
    }
    end
}

/// The index at which the run of characters of `class` that ends in `chars`
/// before `to` starts, looking no further back than `low`.
pub fn start_of_run(chars: &Vec<char>, low: usize, to: usize, class: CharClass) -> (start: usize)
    requires
        low <= to <= chars.len(),
    ensures
        start == run_start(chars@, low as int, to as int, class),
        low <= start <= to,
{
    let mut start: usize = to;
    while start > low && class.admits(chars[start - 1])
        invariant
            low <= start <= to <= chars.len(),
            forall|k: int| start <= k < to ==> class.contains(#[trigger] chars@[k]),
        decreases start - low,
    {
        start -= 1;
    }
    proof {
        lemma_run_start_is(chars@, low as int, to as int, class, start as int);
    }
    start
}

/// `text` without the whitespace it starts with.
pub fn trim_left(text: &str) -> (trimmed: String)
    ensures
        trimmed@ == trim_start(text@),
        trimmed@.len() <= text@.len(),
{
    let chars = chars_of(text);
    let start = end_of_run(&chars, 0, CharClass::Space);
    string_of(&chars, start, chars.len())
}

/// `text` without the whitespace it starts with and the whitespace it ends
/// with.
pub fn trim_both(text: &str) -> (trimmed: String)
    ensures
        trimmed@ == trim(text@),
        trimmed@.len() <= text@.len(),
{
    let chars = chars_of(text);
    let start = end_of_run(&chars, 0, CharClass::Space);
    let end = start_of_run(&chars, start, chars.len(), CharClass::Space);
    string_of(&chars, start, end)
}

} // verus!
