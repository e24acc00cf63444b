//! The ignore file of a project: patterns of the files that are left out
//! of the synchronization.

use vstd::prelude::*;
use glob::Pattern;
use crate::path::{is_absolute, string_views};
use crate::stamp::line_end;
use crate::text::{chars_string, find_char, str_chars, sub_chars, trim_end, trim_start, trimmed};

verus! {

/// The name of the ignore file.
pub const SYNC_IGNORE_FILE_NAME: &'static str = ".timsyncignore";

/// What the ignore file of a new project holds.
pub const DEFAULT_SYNC_IGNORE_FILE: &'static str =
    "\n# This file is used to ignore files and directories in the project.\n# You can use glob patterns to match files and directories.\n# These patterns will apply in addition to the default TIMSync ignore\n# rules (dirs/files starting with _ or .).\n\nREADME.md\n";

/// Whether the `glob` crate matches a path against a pattern. There is no
/// answer for a text that the crate does not take for a pattern.
pub uninterp spec fn glob_matches(pattern: Seq<char>, path: Seq<char>) -> Option<bool>;

/// `glob::Pattern::new` and `glob::Pattern::matches`.
#[verifier::external_body]
fn glob_match(pattern: &str, path: &str) -> (r: Option<bool>)
    ensures
        r == glob_matches(pattern@, path@),
{
    Pattern::new(pattern).ok().map(|p| p.matches(path))
}

/// The patterns of a project.
#[derive(Debug)]
pub struct IgnoreFile {
    /// The patterns as text, each below the directory of its ignore file.
    pub ignore_patterns: Vec<String>,
}

/// A line without the carriage return at its end.
pub open spec fn without_cr(line: Seq<char>) -> Seq<char> {
    if line.len() > 0 && line.last() == '\r' {
        line.drop_last()
    } else {
        line
    }
}

/// Whether a line of an ignore file holds a pattern: it is not empty but
/// for white space, and it is no comment.
pub open spec fn is_pattern_line(line: Seq<char>) -> bool {
    let text = trim_end(trim_start(line));
    text.len() > 0 && text[0] != '#'
}

/// The pattern of a line: the line itself if it starts at the root, else
/// the line below the directory `base`.
pub open spec fn pattern_of_line(base: Seq<char>, line: Seq<char>) -> Seq<char> {
    if is_absolute(line) {
        line
    } else if base.len() == 0 {
        line
    } else if base.last() == '/' {
        base + line
    } else {
        base + seq!['/'] + line
    }
}

/// The patterns of the lines of `contents` from position `from` on.
pub open spec fn patterns_from(contents: Seq<char>, base: Seq<char>, from: int) -> Seq<Seq<char>>
    decreases contents.len() - from,
{
    if from < 0 || from >= contents.len() {
        Seq::empty()
    } else {
        let eol = line_end(contents, from);
        let line = without_cr(contents.subrange(from, eol));
        let rest = if from <= eol < contents.len() {
            patterns_from(contents, base, eol + 1)
        } else {
            Seq::empty()
        };
        if is_pattern_line(line) {
            seq![pattern_of_line(base, line)] + rest
        } else {
            rest
        }
    }
}

impl IgnoreFile {
    /// No pattern: nothing is ignored.
    pub fn new() -> (f: IgnoreFile)
        ensures
            f.ignore_patterns@.len() == 0,
    {
        IgnoreFile { ignore_patterns: Vec::new() }
    }

    /// Adds the patterns of an ignore file that lies in the directory
    /// `base_path`: every line that is not empty and no comment is a
    /// pattern for the paths below that directory.
    pub fn add_ignore_patterns(&mut self, contents: &str, base_path: &str)
        ensures
            string_views(final(self).ignore_patterns@) == string_views(old(self).ignore_patterns@)
                + patterns_from(contents@, base_path@, 0),
    {
        let v = str_chars(contents);
        let base = str_chars(base_path);
        let ghost start = string_views(self.ignore_patterns@);
        let mut from: usize = 0;
        assert(string_views(self.ignore_patterns@) + patterns_from(v@, base@, 0) =~= start
            + patterns_from(v@, base@, 0));
        while from < v.len()
            invariant
                from <= v.len(),
                v@ == contents@,
                base@ == base_path@,
                string_views(self.ignore_patterns@) + patterns_from(v@, base@, from as int) == start
                    + patterns_from(v@, base@, 0),
            decreases v.len() - from,
        {
            let eol = find_char(&v, '\n', from);
            proof {
                crate::stamp::lemma_line_end_is(v@, from as int, eol as int);
            }
            let end = if eol > from && v[eol - 1] == '\r' {
                eol - 1
            } else {
                eol
            };
            let line = sub_chars(&v, from, end);
            proof {
                let raw = v@.subrange(from as int, eol as int);
                assert(line@ =~= without_cr(raw));
            }
            let text = trimmed(&line);
            let ghost before = string_views(self.ignore_patterns@);
            if text.len() > 0 && text[0] != '#' {
                let line_text = chars_string(&line, 0, line.len());
                assert(line_text@ == line@) by {
                    assert(line@.subrange(0, line.len() as int) =~= line@);
                }
                let pattern = if line.len() > 0 && line[0] == '/' {
                    line_text
                } else if base.len() == 0 {
                    line_text
                } else if base[base.len() - 1] == '/' {
                    let mut p = String::from_str(base_path);
                    p.append(line_text.as_str());
                    p
                } else {
                    let mut p = String::from_str(base_path);
                    proof {
                        reveal_strlit("/");
                        assert("/"@ =~= seq!['/']);
                    }
                    p.append("/");
                    p.append(line_text.as_str());
                    p
                };
                assert(pattern@ == pattern_of_line(base@, line@));
                self.ignore_patterns.push(pattern);
                assert(string_views(self.ignore_patterns@) =~= before.push(
                    pattern_of_line(base@, line@),
                ));
            }
            if eol == v.len() {
                from = eol;
            } else {
                from = eol + 1;
            }
            assert(string_views(self.ignore_patterns@) + patterns_from(v@, base@, from as int)
                =~= start + patterns_from(v@, base@, 0));
        }
    }

    /// Whether a path is ignored: one of the patterns matches it.
    pub fn is_ignored(&self, path: &str) -> (r: bool)
        ensures
            r == exists|i: int|
                0 <= i < self.ignore_patterns@.len() && #[trigger] glob_matches(
                    self.ignore_patterns@[i]@,
                    path@,
                ) == Some(true),
    {
        let mut i: usize = 0;
        while i < self.ignore_patterns.len()
            invariant
                i <= self.ignore_patterns.len(),
                forall|k: int|
                    0 <= k < i ==> #[trigger] glob_matches(self.ignore_patterns@[k]@, path@) != Some(
                        true,
                    ),
            decreases self.ignore_patterns.len() - i,
        {
            match glob_match(self.ignore_patterns[i].as_str(), path) {
                Some(true) => {
                    return true;
                },
                _ => {},
            }
            i += 1;
        }
        false
    }
}

} // verus!
