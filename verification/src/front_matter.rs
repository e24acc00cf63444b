//! Front matter: the delimited header at the start of a source file.
//!
//! Positions count characters.

use vstd::prelude::*;
use crate::stamp::{lemma_line_end_bounds, lemma_line_end_is, line_end};
use crate::text::{
    after_last, char_pos, chars_string, find_char, last_pos, lemma_last_pos, lemma_trim_end_prefix,
    matches_at, occurs_at, str_chars, trim_end, trimmed_end_len,
};

verus! {

/// Where the line that starts at `from` ends, its line feed included.
pub open spec fn next_line(s: Seq<char>, from: int) -> int {
    let eol = line_end(s, from);
    if eol < s.len() {
        eol + 1
    } else {
        eol
    }
}

/// The closing line of a front matter that starts at `start`, sought from
/// the line at `from` on: the first line that, without the white space at
/// its end, starts with `end_delimiter`. The front matter ends where that
/// line's text ends.
pub open spec fn front_matter_close(
    s: Seq<char>,
    start: int,
    from: int,
    end_delimiter: Seq<char>,
) -> Option<(int, int)>
    decreases s.len() - from,
{
    if from < 0 || from >= s.len() {
        None
    } else {
        let next = next_line(s, from);
        let text = trim_end(s.subrange(from, next));
        if occurs_at(text, end_delimiter, 0) {
            Some((start, from + text.len()))
        } else if from < next <= s.len() {
            front_matter_close(s, start, next, end_delimiter)
        } else {
            None
        }
    }
}

/// The front matter sought from the line at `from` on: lines of white space
/// are passed over; the first other line must start with `start_delimiter`,
/// and the front matter runs from the start of that line to its closing line.
pub open spec fn front_matter_open(
    s: Seq<char>,
    from: int,
    start_delimiter: Seq<char>,
    end_delimiter: Seq<char>,
) -> Option<(int, int)>
    decreases s.len() - from,
{
    if from < 0 || from >= s.len() {
        None
    } else {
        let next = next_line(s, from);
        let text = trim_end(s.subrange(from, next));
        if text.len() == 0 {
            if from < next <= s.len() {
                front_matter_open(s, next, start_delimiter, end_delimiter)
            } else {
                None
            }
        } else if occurs_at(text, start_delimiter, 0) {
            front_matter_close(s, from, next, end_delimiter)
        } else {
            None
        }
    }
}

/// Where the front matter of `s` starts and ends, if `s` has one.
pub open spec fn front_matter_span(
    s: Seq<char>,
    start_delimiter: Seq<char>,
    end_delimiter: Seq<char>,
) -> Option<(int, int)> {
    front_matter_open(s, 0, start_delimiter, end_delimiter)
}

/// A front matter lies within the text, and its start is not after its end.
pub proof fn lemma_front_matter_close_bounds(
    s: Seq<char>,
    start: int,
    from: int,
    end_delimiter: Seq<char>,
)
    requires
        0 <= start <= from,
    ensures
        front_matter_close(s, start, from, end_delimiter) matches Some((a, b)) ==> a == start && start
            <= b <= s.len(),
    decreases s.len() - from,
{
    if 0 <= from < s.len() {
        lemma_line_end_bounds(s, from);
        let next = next_line(s, from);
        lemma_trim_end_prefix(s.subrange(from, next));
        let text = trim_end(s.subrange(from, next));
        if !occurs_at(text, end_delimiter, 0) && from < next {
            lemma_front_matter_close_bounds(s, start, next, end_delimiter);
        }
    }
}

/// A front matter lies within the text, and its start is not after its end.
pub proof fn lemma_front_matter_bounds(
    s: Seq<char>,
    from: int,
    start_delimiter: Seq<char>,
    end_delimiter: Seq<char>,
)
    requires
        0 <= from,
    ensures
        front_matter_open(s, from, start_delimiter, end_delimiter) matches Some((a, b)) ==> from <= a
            <= b <= s.len(),
    decreases s.len() - from,
{
    if 0 <= from < s.len() {
        lemma_line_end_bounds(s, from);
        let next = next_line(s, from);
        let text = trim_end(s.subrange(from, next));
        if text.len() == 0 {
            if from < next {
                lemma_front_matter_bounds(s, next, start_delimiter, end_delimiter);
            }
        } else if occurs_at(text, start_delimiter, 0) {
            lemma_front_matter_close_bounds(s, from, next, end_delimiter);
        }
    }
}

/// Where the line that starts at `from` ends, its line feed included.
fn line_break(v: &Vec<char>, from: usize) -> (next: usize)
    requires
        from < v.len(),
    ensures
        next == next_line(v@, from as int),
        from < next <= v.len(),
{
    let mut i: usize = from;
    while i < v.len() && v[i] != '\n'
        invariant
            from <= i <= v.len(),
            forall|j: int| from <= j < i ==> v@[j] != '\n',
        decreases v.len() - i,
    {
        i += 1;
    }
    proof {
        lemma_line_end_is(v@, from as int, i as int);
    }
    if i < v.len() {
        i + 1
    } else {
        i
    }
}

/// Whether `v[from..from + len]` starts with `pat`.
fn line_starts_with(v: &Vec<char>, from: usize, len: usize, pat: &Vec<char>) -> (r: bool)
    requires
        from + len <= v.len(),
    ensures
        r == occurs_at(v@.subrange(from as int, from + len), pat@, 0),
{
    let ghost text = v@.subrange(from as int, from + len);
    if pat.len() > len {
        return false;
    }
    let r = matches_at(v, pat, from);
    proof {
        assert(text.subrange(0, pat.len() as int) =~= v@.subrange(from as int, from + pat.len()));
    }
    r
}

/// Finds the front matter of a file: where it starts and where it ends, in characters.
///
/// Lines that hold only white space may stand before it. The first other
/// line must start with `start_delimiter`, or there is no front matter. It
/// ends with the first later line that starts with `end_delimiter`, at the
/// end of that line's text: the white space that ends the line is left out.
pub fn find_front_matter_simple(contents: &str, start_delimiter: &str, end_delimiter: &str) -> (r:
    Option<(usize, usize)>)
    ensures
        match r {
            Some((start, end)) => front_matter_span(contents@, start_delimiter@, end_delimiter@)
                == Some((start as int, end as int)) && start <= end <= contents@.len(),
            None => front_matter_span(contents@, start_delimiter@, end_delimiter@) is None,
        },
{
    let v = str_chars(contents);
    let sd = str_chars(start_delimiter);
    let ed = str_chars(end_delimiter);
    let mut from: usize = 0;
    let mut start: usize = 0;
    let mut found_start = false;
    proof {
        lemma_front_matter_bounds(v@, 0, sd@, ed@);
    }
    while from < v.len()
        invariant
            v@ == contents@,
            sd@ == start_delimiter@,
            ed@ == end_delimiter@,
            from <= v.len(),
            start <= from,
            !found_start ==> front_matter_span(v@, sd@, ed@) == front_matter_open(
                v@,
                from as int,
                sd@,
                ed@,
            ),
            found_start ==> front_matter_span(v@, sd@, ed@) == front_matter_close(
                v@,
                start as int,
                from as int,
                ed@,
            ),
            front_matter_span(v@, sd@, ed@) matches Some((a, b)) ==> 0 <= a <= b <= v.len(),
        decreases v.len() - from,
    {
        let next = line_break(&v, from);
        let len = trimmed_end_len(&v, from, next);
        proof {
            lemma_trim_end_prefix(v@.subrange(from as int, next as int));
            assert(v@.subrange(from as int, next as int).take(len as int) =~= v@.subrange(
                from as int,
                from + len,
            ));
        }
        if !found_start {
            if len == 0 {
            } else if line_starts_with(&v, from, len, &sd) {
                found_start = true;
                start = from;
            } else {
                return None;
            }
        } else {
            if line_starts_with(&v, from, len, &ed) {
                return Some((start, from + len));
            }
        }
        from = next;
    }
    None
}

/// The text of a front matter between its delimiter lines: from the first
/// line feed of the block up to its last one. A block without a line feed
/// is taken whole.
pub open spec fn front_matter_body(block: Seq<char>) -> Seq<char> {
    if char_pos(block, '\n', 0) < block.len() {
        block.subrange(char_pos(block, '\n', 0), last_pos(block, '\n'))
    } else {
        block
    }
}

/// The front matter of a file as text, without its delimiter lines. Empty
/// where the file has no front matter.
pub open spec fn front_matter_text(
    contents: Seq<char>,
    start_delimiter: Seq<char>,
    end_delimiter: Seq<char>,
) -> Seq<char> {
    match front_matter_span(contents, start_delimiter, end_delimiter) {
        Some((start, end)) => front_matter_body(contents.subrange(start, end)),
        None => Seq::empty(),
    }
}

/// The contents of a file after its front matter: all of it where there is none.
pub open spec fn contents_after_front_matter(
    contents: Seq<char>,
    start_delimiter: Seq<char>,
    end_delimiter: Seq<char>,
) -> Seq<char> {
    match front_matter_span(contents, start_delimiter, end_delimiter) {
        Some((_, end)) => contents.skip(end),
        None => contents,
    }
}

/// Takes the text between the delimiter lines out of a front matter block.
pub fn front_matter_of_block(block: &Vec<char>) -> (out: String)
    ensures
        out@ == front_matter_body(block@),
{
    let first = find_char(block, '\n', 0);
    if first < block.len() {
        let after = after_last(block, '\n');
        proof {
            lemma_last_pos(block@, '\n');
        }
        chars_string(block, first, after - 1)
    } else {
        assert(block@.subrange(0, block.len() as int) == block@);
        chars_string(block, 0, block.len())
    }
}

} // verus!
