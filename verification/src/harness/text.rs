//! Lines, prefixes and surrounding whitespace of a text.
//!
//! The harness reads its configuration from marker lines at the head of a
//! source file. This module says what the lines of a text are and what a line
//! holds behind a marker, and finds both in the characters of the text.

use vstd::prelude::*;

verus! {

/// Whether a character is white space: the characters with the Unicode
/// property `White_Space`.
pub open spec fn is_white(c: char) -> bool {
    let code = c as u32;
    ||| 0x09 <= code <= 0x0D
    ||| code == 0x20
    ||| code == 0x85
    ||| code == 0xA0
    ||| code == 0x1680
    ||| 0x2000 <= code <= 0x200A
    ||| code == 0x2028
    ||| code == 0x2029
    ||| code == 0x202F
    ||| code == 0x205F
    ||| code == 0x3000
}

/// The position of the first line feed in `text`, or the length of `text`
/// if it holds none.
pub open spec fn line_end(text: Seq<char>) -> nat
    decreases text.len(),
{
    if text.len() == 0 || text[0] == '\n' {
        0
    } else {
        1 + line_end(text.skip(1))
    }
}

/// The first line of `text`, without its line ending. A line ends with a
/// line feed, before which one carriage return is dropped too; the last line
/// may go without an ending, and then nothing is dropped from it.
pub open spec fn first_line(text: Seq<char>) -> Seq<char> {
    let end = line_end(text);
    if 0 < end < text.len() && text[end - 1] == '\r' {
        text.take(end - 1)
    } else {
        text.take(end as int)
    }
}

/// What follows the first line of `text` and its ending.
pub open spec fn after_first_line(text: Seq<char>) -> Seq<char> {
    let end = line_end(text);
    if end < text.len() {
        text.skip((end + 1) as int)
    } else {
        Seq::empty()
    }
}

/// `text` without the white space at its start.
pub open spec fn trim_start(text: Seq<char>) -> Seq<char>
    decreases text.len(),
{
    if text.len() > 0 && is_white(text[0]) {
        trim_start(text.skip(1))
    } else {
        text
    }
}

/// `text` without the white space at its end.
pub open spec fn trim_end(text: Seq<char>) -> Seq<char>
    decreases text.len(),
{
    if text.len() > 0 && is_white(text.last()) {
        trim_end(text.drop_last())
    } else {
        text
    }
}

/// `text` without the white space at both ends.
pub open spec fn trimmed(text: Seq<char>) -> Seq<char> {
    trim_end(trim_start(text))
}

/// Whether `line` starts with `prefix`.
pub open spec fn has_prefix(line: Seq<char>, prefix: Seq<char>) -> bool {
    prefix.len() <= line.len() && line.take(prefix.len() as int) == prefix
}

/// What a line holds behind `marker`, without surrounding white space, if
/// the line starts with the marker.
pub open spec fn marked(line: Seq<char>, marker: Seq<char>) -> Option<Seq<char>> {
    if has_prefix(line, marker) {
        Some(trimmed(line.skip(marker.len() as int)))
    } else {
        None
    }
}

/// The line end lies inside the text, no line feed lies before it, and a
/// line feed lies at it unless it is the end of the text.
pub proof fn lemma_line_end(text: Seq<char>)
    ensures
        line_end(text) <= text.len(),
        forall|i: int| 0 <= i < line_end(text) ==> text[i] != '\n',
        line_end(text) < text.len() ==> text[line_end(text) as int] == '\n',
    decreases text.len(),
{
    if text.len() == 0 || text[0] == '\n' {
    } else {
        let tail = text.skip(1);
        lemma_line_end(tail);
        assert forall|i: int| 0 <= i < line_end(text) implies text[i] != '\n' by {
            if i > 0 {
                assert(tail[i - 1] == text[i]);
            }
        }
        if line_end(text) < text.len() {
            assert(tail[line_end(tail) as int] == text[line_end(text) as int]);
        }
    }
}

/// A position that no line feed lies before and that holds one, or the end
/// of the text, is the line end.
pub proof fn lemma_line_end_found(text: Seq<char>, at: nat)
    requires
        at <= text.len(),
        forall|i: int| 0 <= i < at ==> text[i] != '\n',
        at < text.len() ==> text[at as int] == '\n',
    ensures
        line_end(text) == at,
    decreases at,
{
    if at > 0 {
        let tail = text.skip(1);
        assert forall|i: int| 0 <= i < at - 1 implies tail[i] != '\n' by {
            assert(tail[i] == text[i + 1]);
        }
        lemma_line_end_found(tail, (at - 1) as nat);
    }
}

/// Whether a character is white space.
pub fn is_whitespace(c: char) -> (white: bool)
    ensures
        white == is_white(c),
{
    let code = c as u32;
    (0x09 <= code && code <= 0x0D) || code == 0x20 || code == 0x85 || code == 0xA0 || code
        == 0x1680 || (0x2000 <= code && code <= 0x200A) || code == 0x2028 || code == 0x2029
        || code == 0x202F || code == 0x205F || code == 0x3000
}

/// The characters of a string.
pub fn chars_of(text: &str) -> (chars: Vec<char>)
    ensures
        chars@ == text@,
{
    let mut chars: Vec<char> = Vec::new();
    for c in it: text.chars()
        invariant
            chars@ == it.seq().take(it.index() as int),
            it.seq() == text@,
    {
        chars.push(c);
    }
    chars
}

/// Finds the end of the line that starts at `from`: the position of the
/// next line feed, or the end of the text.
pub fn find_line_end(chars: &Vec<char>, from: usize) -> (end: usize)
    requires
        from <= chars.len(),
    ensures
        from <= end <= chars.len(),
        end == from + line_end(chars@.skip(from as int)),
{
    let mut end = from;
    while end < chars.len() && chars[end] != '\n'
        invariant
            from <= end <= chars.len(),
            forall|i: int| from <= i < end ==> chars@[i] != '\n',
        decreases chars.len() - end,
    {
        end = end + 1;
    }
    proof {
        let rest = chars@.skip(from as int);
        assert forall|i: int| 0 <= i < end - from implies rest[i] != '\n' by {
            assert(rest[i] == chars@[from + i]);
        }
        lemma_line_end_found(rest, (end - from) as nat);
    }
    end
}

/// Whether the characters from `from` up to `to` start with `prefix`.
pub fn starts_with(chars: &Vec<char>, from: usize, to: usize, prefix: &Vec<char>) -> (found: bool)
    requires
        from <= to <= chars.len(),
    ensures
        found == has_prefix(chars@.subrange(from as int, to as int), prefix@),
{
    let ghost line = chars@.subrange(from as int, to as int);
    if prefix.len() > to - from {
        return false;
    }
    let mut i: usize = 0;
    while i < prefix.len()
        invariant
            i <= prefix.len() <= to - from,
            from <= to <= chars.len(),
            line == chars@.subrange(from as int, to as int),
            forall|k: int| 0 <= k < i ==> line[k] == prefix@[k],
        decreases prefix.len() - i,
    {
        if chars[from + i] != prefix[i] {
            proof {
                assert(line.take(prefix.len() as int)[i as int] != prefix@[i as int]);
            }
            return false;
        }
        i = i + 1;
    }
    proof {
        assert(line.take(prefix.len() as int) =~= prefix@);
    }
    true
}

/// Whether the characters from `from` up to `to` are exactly `word`.
pub fn equals(chars: &Vec<char>, from: usize, to: usize, word: &Vec<char>) -> (same: bool)
    requires
        from <= to <= chars.len(),
    ensures
        same == (chars@.subrange(from as int, to as int) == word@),
{
    if word.len() != to - from {
        return false;
    }
    let found = starts_with(chars, from, to, word);
    proof {
        let line = chars@.subrange(from as int, to as int);
        assert(line.take(word.len() as int) =~= line);
    }
    found
}

/// Where the characters from `from` up to `to` start and end once the white
/// space at both ends is left out.
pub fn trim_bounds(chars: &Vec<char>, from: usize, to: usize) -> (bounds: (usize, usize))
    requires
        from <= to <= chars.len(),
    ensures
        from <= bounds.0 <= bounds.1 <= to,
        chars@.subrange(bounds.0 as int, bounds.1 as int) == trimmed(
            chars@.subrange(from as int, to as int),
        ),
{
    let mut start = from;
    while start < to && is_whitespace(chars[start])
        invariant
            from <= start <= to <= chars.len(),
            trim_start(chars@.subrange(start as int, to as int)) == trim_start(
                chars@.subrange(from as int, to as int),
            ),
        decreases to - start,
    {
        proof {
            let run = chars@.subrange(start as int, to as int);
            assert(run.skip(1) =~= chars@.subrange(start + 1, to as int));
        }
        start = start + 1;
    }
    let mut end = to;
    while start < end && is_whitespace(chars[end - 1])
        invariant
            start <= end <= to <= chars.len(),
            trim_end(chars@.subrange(start as int, end as int)) == trim_end(
                chars@.subrange(start as int, to as int),
            ),
        decreases end - start,
    {
        proof {
            let run = chars@.subrange(start as int, end as int);
            assert(run.drop_last() =~= chars@.subrange(start as int, end - 1));
        }
        end = end - 1;
    }
    (start, end)
}

} // verus!
