//! Characters of a source text: white space, runs, lines, and the passage
//! between strings and sequences of characters.

use vstd::prelude::*;

verus! {

/// The characters that Unicode gives the property `White_Space`.
pub open spec fn is_space(c: char) -> bool {
    let u = c as u32;
    ||| 0x09 <= u <= 0x0D
    ||| u == 0x20
    ||| u == 0x85
    ||| u == 0xA0
    ||| u == 0x1680
    ||| 0x2000 <= u <= 0x200A
    ||| u == 0x2028
    ||| u == 0x2029
    ||| u == 0x202F
    ||| u == 0x205F
    ||| u == 0x3000
}

/// Where the run that starts at `from` ends: a run of white space if
/// `spaces`, else a run of other characters. It is `from` itself where the
/// run is empty or `from` is no index of `s`.
pub open spec fn run_end(s: Seq<char>, from: int, spaces: bool) -> int
    decreases s.len() - from,
{
    if 0 <= from < s.len() && is_space(s[from]) == spaces {
        run_end(s, from + 1, spaces)
    } else {
        from
    }
}

/// The first index at or after `from` that holds `c`, or the length of `s`
/// if there is none.
pub open spec fn find(s: Seq<char>, c: char, from: int) -> int
    decreases s.len() - from,
{
    if 0 <= from < s.len() && s[from] != c {
        find(s, c, from + 1)
    } else {
        from
    }
}

/// Where the first token at or after `from` starts: the first character
/// there that is not white space. It is the length of `s` if no token is
/// left.
pub open spec fn token_start(s: Seq<char>, from: int) -> int {
    run_end(s, from, true)
}

/// Where the first token at or after `from` ends: at the next white space
/// or at the end of `s`.
pub open spec fn token_end(s: Seq<char>, from: int) -> int {
    run_end(s, token_start(s, from), false)
}

/// Some token starts at or after `from`.
pub open spec fn has_token(s: Seq<char>, from: int) -> bool {
    token_start(s, from) < s.len()
}

/// The first token at or after `from`: a longest run of characters that
/// are not white space.
pub open spec fn token(s: Seq<char>, from: int) -> Seq<char> {
    s.subrange(token_start(s, from), token_end(s, from))
}

/// `s` without its leading white space.
pub open spec fn trim_start(s: Seq<char>) -> Seq<char> {
    s.skip(run_end(s, 0, true))
}

/// `s` up to its first `c`, or all of it if it holds none.
pub open spec fn before(s: Seq<char>, c: char) -> Seq<char> {
    s.take(find(s, c, 0))
}

/// `s` without the carriage return at its end, if it has one.
pub open spec fn without_cr(s: Seq<char>) -> Seq<char> {
    if s.len() > 0 && s.last() == '\r' {
        s.drop_last()
    } else {
        s
    }
}

/// The lines of the part of `text` that starts at `from`. A line ends with
/// a line feed; the line feed, and a carriage return right before it, are
/// not part of the line. What follows the last line feed is a line too,
/// unless nothing follows it.
pub open spec fn lines_from(text: Seq<char>, from: int) -> Seq<Seq<char>>
    decreases text.len() - from,
{
    if 0 <= from < text.len() {
        let end = find(text, '\n', from);
        if end < text.len() {
            proof {
                lemma_find(text, '\n', from);
            }
            seq![without_cr(text.subrange(from, end))] + lines_from(text, end + 1)
        } else {
            seq![text.subrange(from, end)]
        }
    } else {
        Seq::empty()
    }
}

/// The lines of `text`.
pub open spec fn lines(text: Seq<char>) -> Seq<Seq<char>> {
    lines_from(text, 0)
}

/// A run ends within `s`, at the first character that is not of its kind.
pub proof fn lemma_run_end(s: Seq<char>, from: int, spaces: bool)
    requires
        0 <= from <= s.len(),
    ensures
        from <= run_end(s, from, spaces) <= s.len(),
        forall|i: int| from <= i < run_end(s, from, spaces) ==> is_space(#[trigger] s[i]) == spaces,
        run_end(s, from, spaces) < s.len() ==> is_space(s[run_end(s, from, spaces)]) != spaces,
    decreases s.len() - from,
{
    if from < s.len() && is_space(s[from]) == spaces {
        lemma_run_end(s, from + 1, spaces);
    }
}

/// `find` stops within `s`, at the first `c`.
pub proof fn lemma_find(s: Seq<char>, c: char, from: int)
    requires
        0 <= from <= s.len(),
    ensures
        from <= find(s, c, from) <= s.len(),
        forall|i: int| from <= i < find(s, c, from) ==> #[trigger] s[i] != c,
        find(s, c, from) < s.len() ==> s[find(s, c, from)] == c,
    decreases s.len() - from,
{
    if from < s.len() && s[from] != c {
        lemma_find(s, c, from + 1);
    }
}

/// A position is the end of the run from `from` if the characters up to it
/// are of the run's kind and the one at it, if there is one, is not.
pub proof fn lemma_run_end_is(s: Seq<char>, from: int, spaces: bool, end: int)
    requires
        0 <= from <= end <= s.len(),
        forall|i: int| from <= i < end ==> is_space(#[trigger] s[i]) == spaces,
        end < s.len() ==> is_space(s[end]) != spaces,
    ensures
        run_end(s, from, spaces) == end,
    decreases end - from,
{
    if from < end {
        lemma_run_end_is(s, from + 1, spaces, end);
    }
}

/// A position is what `find` gives if no character from `from` up to it
/// is `c` and the one at it, if there is one, is.
pub proof fn lemma_find_is(s: Seq<char>, c: char, from: int, end: int)
    requires
        0 <= from <= end <= s.len(),
        forall|i: int| from <= i < end ==> #[trigger] s[i] != c,
        end < s.len() ==> s[end] == c,
    ensures
        find(s, c, from) == end,
    decreases end - from,
{
    if from < end {
        lemma_find_is(s, c, from + 1, end);
    }
}

/// A text has no more lines than characters.
pub proof fn lemma_lines_len(text: Seq<char>, from: int)
    requires
        0 <= from <= text.len(),
    ensures
        lines_from(text, from).len() <= text.len() - from,
    decreases text.len() - from,
{
    if from < text.len() {
        lemma_find(text, '\n', from);
        let end = find(text, '\n', from);
        if end < text.len() {
            lemma_lines_len(text, end + 1);
        }
    }
}

/// Tells whether `c` is white space.
pub fn is_space_char(c: char) -> (b: bool)
    ensures
        b == is_space(c),
{
    let u: u32 = c as u32;
    (0x09 <= u && u <= 0x0D) || u == 0x20 || u == 0x85 || u == 0xA0 || u == 0x1680 || (0x2000 <= u
        && u <= 0x200A) || u == 0x2028 || u == 0x2029 || u == 0x202F || u == 0x205F || u == 0x3000
}

/// Finds the end of the run that starts at `from`.
pub fn skip_run(s: &Vec<char>, from: usize, spaces: bool) -> (end: usize)
    requires
        from <= s@.len(),
    ensures
        end == run_end(s@, from as int, spaces),
        from <= end <= s@.len(),
{
    let mut i = from;
    while i < s.len() && is_space_char(s[i]) == spaces
        invariant
            from <= i <= s@.len(),
            run_end(s@, from as int, spaces) == run_end(s@, i as int, spaces),
        decreases s@.len() - i,
    {
        i += 1;
    }
    i
}

/// Finds the first token at or after `from`: where it starts and where it
/// ends. Where no token is left, both are the length of `s`.
pub fn next_token(s: &Vec<char>, from: usize) -> (span: (usize, usize))
    requires
        from <= s@.len(),
    ensures
        span.0 == token_start(s@, from as int),
        span.1 == token_end(s@, from as int),
        from <= span.0 <= span.1 <= s@.len(),
        has_token(s@, from as int) <==> span.0 < span.1,
{
    let start = skip_run(s, from, true);
    let end = skip_run(s, start, false);
    proof {
        lemma_run_end(s@, start as int, false);
        lemma_run_end(s@, from as int, true);
    }
    (start, end)
}

/// Finds the first `c` at or after `from`.
pub fn find_char(s: &Vec<char>, c: char, from: usize) -> (end: usize)
    requires
        from <= s@.len(),
    ensures
        end == find(s@, c, from as int),
        from <= end <= s@.len(),
{
    let mut i = from;
    while i < s.len() && s[i] != c
        invariant
            from <= i <= s@.len(),
            find(s@, c, from as int) == find(s@, c, i as int),
        decreases s@.len() - i,
    {
        i += 1;
    }
    i
}

/// Copies the characters from `from` up to `to`.
pub fn copy_range(s: &Vec<char>, from: usize, to: usize) -> (part: Vec<char>)
    requires
        from <= to <= s@.len(),
    ensures
        part@ == s@.subrange(from as int, to as int),
{
    let mut part: Vec<char> = Vec::new();
    let mut i = from;
    while i < to
        invariant
            from <= i <= to <= s@.len(),
            part@ == s@.subrange(from as int, i as int),
        decreases to - i,
    {
        part.push(s[i]);
        i += 1;
    }
    part
}

/// The characters of a string.
pub fn to_chars(s: &str) -> (chars: Vec<char>)
    ensures
        chars@ == s@,
{
    broadcast use vstd::string::group_string_axioms;

    let mut chars: Vec<char> = Vec::new();
    for c in it: s.chars()
        invariant
            it.seq() == s@,
            chars@ == s@.take(it.index() as int),
    {
        chars.push(c);
    }
    chars
}

/// What `String::push` does: it puts one character at the end.
pub assume_specification[ String::push ](s: &mut String, c: char)
    ensures
        final(s)@ == old(s)@.push(c),
;

/// The string that holds the characters from `from` up to `to`.
pub fn to_string(s: &Vec<char>, from: usize, to: usize) -> (text: String)
    requires
        from <= to <= s@.len(),
    ensures
        text@ == s@.subrange(from as int, to as int),
{
    let mut text = String::new();
    let mut i = from;
    while i < to
        invariant
            from <= i <= to <= s@.len(),
            text@ == s@.subrange(from as int, i as int),
        decreases to - i,
    {
        text.push(s[i]);
        i += 1;
    }
    text
}

/// Tells whether the characters from `from` up to `to` spell `word`.
pub fn spells(s: &Vec<char>, from: usize, to: usize, word: &str) -> (b: bool)
    requires
        from <= to <= s@.len(),
    ensures
        b == (s@.subrange(from as int, to as int) == word@),
{
    let n = word.unicode_len();
    if to - from != n {
        return false;
    }
    let mut i: usize = 0;
    while i < n
        invariant
            from <= to <= s@.len(),
            n == word@.len(),
            to - from == n,
            i <= n,
            forall|j: int| 0 <= j < i ==> s@[from + j] == word@[j],
        decreases n - i,
    {
        if s[from + i] != word.get_char(i) {
            return false;
        }
        i += 1;
    }
    assert(s@.subrange(from as int, to as int) =~= word@);
    true
}

} // verus!
