//! The fingerprint stamp: a marker block at the head of an uploaded document
//! that holds the fingerprint of the content below it.
//!
//! A stamp is a fenced block whose opening line names the settings
//! `timsync`, and whose body is a YAML mapping with the fingerprint under
//! the key `hash`. The body is written and read by the `serde_yaml` crate:
//!
//! ````text
//! ``` {settings="timsync"}
//! hash: 2aae6c35c94fcfb415dbe95f408b9ce91ee846ed
//! ```
//! ````

use vstd::prelude::*;
use serde_yaml::{Mapping, Value};
use crate::text::{
    chars_string, find_char, find_from, first_occurrence, is_whitespace, lemma_first_occurrence,
    matches_at, occurs_at, same_text, str_chars, whitespace,
};

verus! {

/// The fence that opens and closes a block.
pub open spec fn fence() -> Seq<char> {
    "```"@
}

/// The attribute that marks a block as a stamp.
pub open spec fn settings_key() -> Seq<char> {
    "settings=\"timsync\""@
}

/// The key under which the body of a stamp holds the fingerprint.
pub const HASH_KEY: &'static str = "hash";

/// The YAML text that the `serde_yaml` crate writes for a mapping with the
/// one member `key`, whose value is the text `value`; the empty text where
/// the crate reports an error.
pub uninterp spec fn yaml_member_text(key: Seq<char>, value: Seq<char>) -> Seq<char>;

/// The text that the `serde_yaml` crate finds under `key` in the YAML text
/// `yaml`, read as a `serde_yaml::Value`: there is none where the crate
/// does not take `yaml` for YAML, and none where it finds no text under
/// `key`.
pub uninterp spec fn yaml_text_member(yaml: Seq<char>, key: Seq<char>) -> Option<Seq<char>>;

/// `serde_yaml::to_string` of the `serde_yaml::Value` that is a mapping with
/// the one member `key`, whose value is the text `value`.
#[verifier::external_body]
fn yaml_of_member(key: &str, value: &str) -> (out: String)
    ensures
        out@ == yaml_member_text(key@, value@),
{
    let mut mapping = Mapping::new();
    mapping.insert(Value::String(key.to_string()), Value::String(value.to_string()));
    serde_yaml::to_string(&Value::Mapping(mapping)).unwrap_or_default()
}

/// `serde_yaml::from_str` into a `serde_yaml::Value`, then `Value::get`
/// with `key` and `Value::as_str` on what it finds.
#[verifier::external_body]
fn yaml_member(yaml: &str, key: &str) -> (r: Option<String>)
    ensures
        match r {
            Some(text) => yaml_text_member(yaml@, key@) == Some(text@),
            None => yaml_text_member(yaml@, key@) is None,
        },
{
    let value: Value = serde_yaml::from_str(yaml).ok()?;
    value.get(key).and_then(|member| member.as_str()).map(|text| text.to_string())
}

/// The first position at or after `from` that holds no white space.
pub open spec fn skip_blanks(s: Seq<char>, from: int) -> int
    decreases s.len() - from,
{
    if 0 <= from < s.len() && is_whitespace(s[from]) {
        skip_blanks(s, from + 1)
    } else {
        from
    }
}

/// The first position at or after `from` that holds a line feed, or the end.
pub open spec fn line_end(s: Seq<char>, from: int) -> int
    decreases s.len() - from,
{
    if 0 <= from < s.len() && s[from] != '\n' {
        line_end(s, from + 1)
    } else {
        from
    }
}

/// The body of the stamp whose opening fence stands at `i`, as the positions
/// where it starts and ends: after the fence come white space, `{`, white space, the
/// settings key, the rest of the line, which ends in `}`, and the body up to
/// the next fence.
pub open spec fn stamp_body_at(md: Seq<char>, i: int) -> Option<(int, int)> {
    if !occurs_at(md, fence(), i) {
        None
    } else {
        let brace = skip_blanks(md, i + fence().len());
        if !(brace < md.len() && md[brace] == '{') {
            None
        } else {
            let key = skip_blanks(md, brace + 1);
            if !occurs_at(md, settings_key(), key) {
                None
            } else {
                let after = key + settings_key().len();
                let eol = line_end(md, after);
                if !(eol < md.len() && after < eol && md[eol - 1] == '}') {
                    None
                } else {
                    match first_occurrence(md, fence(), eol + 1) {
                        Some(close) => Some((eol + 1, close)),
                        None => None,
                    }
                }
            }
        }
    }
}

/// The body of the first stamp that opens at or after `from`.
pub open spec fn stamp_from(md: Seq<char>, from: int) -> Option<(int, int)>
    decreases md.len() + 1 - from,
{
    if from < 0 || from > md.len() {
        None
    } else {
        match stamp_body_at(md, from) {
            Some(body) => Some(body),
            None => stamp_from(md, from + 1),
        }
    }
}

/// The body of the first stamp in `md`.
pub open spec fn stamp_settings(md: Seq<char>) -> Option<Seq<char>> {
    match stamp_from(md, 0) {
        Some((start, end)) => Some(md.subrange(start, end)),
        None => None,
    }
}

/// The fingerprint that the body of a stamp holds: the text under the key
/// `hash` of the YAML mapping that the body is.
pub open spec fn settings_hash(body: Seq<char>) -> Option<Seq<char>> {
    yaml_text_member(body, HASH_KEY@)
}

/// The fingerprint that the first stamp of `md` holds.
pub open spec fn stamp_hash(md: Seq<char>) -> Option<Seq<char>> {
    match stamp_settings(md) {
        Some(body) => settings_hash(body),
        None => None,
    }
}

/// The body of the stamp that holds `hash`.
pub open spec fn stamp_body(hash: Seq<char>) -> Seq<char> {
    yaml_member_text(HASH_KEY@, hash)
}

/// The stamp that holds `hash`.
pub open spec fn stamp_block(hash: Seq<char>) -> Seq<char> {
    "``` {settings=\"timsync\"}\n"@ + stamp_body(hash) + "```\n"@
}

/// The content `markdown` below the stamp that holds `hash`.
pub open spec fn stamped(markdown: Seq<char>, hash: Seq<char>) -> Seq<char> {
    stamp_block(hash) + "\n\n"@ + markdown
}

/// Whether the stamp that holds `hash` reads back as it was written: its
/// body holds no backtick, so that the fence below it is the first one, and
/// the fingerprint that is read from the body is `hash`.
pub open spec fn reads_back(hash: Seq<char>) -> bool {
    &&& forall|j: int| 0 <= j < stamp_body(hash).len() ==> stamp_body(hash)[j] != '`'
    &&& settings_hash(stamp_body(hash)) == Some(hash)
}

/// `line_end` stays within `from` and the end of the text.
pub proof fn lemma_line_end_bounds(s: Seq<char>, from: int)
    requires
        0 <= from <= s.len(),
    ensures
        from <= line_end(s, from) <= s.len(),
        forall|j: int| from <= j < line_end(s, from) ==> s[j] != '\n',
        line_end(s, from) < s.len() ==> s[line_end(s, from)] == '\n',
    decreases s.len() - from,
{
    if from < s.len() && s[from] != '\n' {
        lemma_line_end_bounds(s, from + 1);
    }
}

/// A position that ends the white space from `from` on is `skip_blanks`.
pub proof fn lemma_skip_blanks_is(s: Seq<char>, from: int, to: int)
    requires
        0 <= from <= to <= s.len(),
        forall|j: int| from <= j < to ==> is_whitespace(s[j]),
        to < s.len() ==> !is_whitespace(s[to]),
    ensures
        skip_blanks(s, from) == to,
    decreases to - from,
{
    if from < to {
        lemma_skip_blanks_is(s, from + 1, to);
    }
}

/// A position that ends the line from `from` on is `line_end`.
pub proof fn lemma_line_end_is(s: Seq<char>, from: int, to: int)
    requires
        0 <= from <= to <= s.len(),
        forall|j: int| from <= j < to ==> s[j] != '\n',
        to < s.len() ==> s[to] == '\n',
    ensures
        line_end(s, from) == to,
    decreases to - from,
{
    if from < to {
        lemma_line_end_is(s, from + 1, to);
    }
}

/// The first position at or after `from` that holds no white space.
fn skip_blank_chars(v: &Vec<char>, from: usize) -> (r: usize)
    requires
        from <= v.len(),
    ensures
        r == skip_blanks(v@, from as int),
        from <= r <= v.len(),
{
    let mut i: usize = from;
    while i < v.len() && whitespace(v[i])
        invariant
            from <= i <= v.len(),
            forall|j: int| from <= j < i ==> is_whitespace(v@[j]),
        decreases v.len() - i,
    {
        i += 1;
    }
    proof {
        lemma_skip_blanks_is(v@, from as int, i as int);
    }
    i
}

/// The first position at or after `from` that holds a line feed, or the end.
fn end_of_line(v: &Vec<char>, from: usize) -> (r: usize)
    requires
        from <= v.len(),
    ensures
        r == line_end(v@, from as int),
        from <= r <= v.len(),
{
    let mut i: usize = from;
    while i < v.len() && v[i] != '\n'
        invariant
            from <= i <= v.len(),
            forall|j: int| from <= j < i ==> v@[j] != '\n',
        decreases v.len() - i,
    {
        i += 1;
    }
    proof {
        lemma_line_end_is(v@, from as int, i as int);
    }
    i
}

/// The body of the stamp whose opening fence stands at `i`, if one opens there.
fn stamp_at(md: &Vec<char>, i: usize) -> (r: Option<(usize, usize)>)
    ensures
        match r {
            Some((a, b)) => stamp_body_at(md@, i as int) == Some((a as int, b as int)) && a <= b
                <= md.len(),
            None => stamp_body_at(md@, i as int) is None,
        },
{
    let fence_chars = str_chars("```");
    let key_chars = str_chars("settings=\"timsync\"");
    if !matches_at(md, &fence_chars, i) {
        return None;
    }
    assert(i + fence_chars.len() <= md.len());
    let brace = skip_blank_chars(md, i + fence_chars.len());
    if !(brace < md.len() && md[brace] == '{') {
        return None;
    }
    let key = skip_blank_chars(md, brace + 1);
    if !matches_at(md, &key_chars, key) {
        return None;
    }
    let after = key + key_chars.len();
    let eol = end_of_line(md, after);
    if !(eol < md.len() && after < eol && md[eol - 1] == '}') {
        return None;
    }
    match find_from(md, &fence_chars, eol + 1) {
        Some(close) => {
            proof {
                crate::text::lemma_first_occurrence_is_first(md@, fence(), eol + 1);
            }
            Some((eol + 1, close))
        },
        None => None,
    }
}

/// Finds the body of the first stamp in `md`.
pub fn find_stamp(md: &Vec<char>) -> (r: Option<(usize, usize)>)
    ensures
        match r {
            Some((a, b)) => stamp_from(md@, 0) == Some((a as int, b as int)) && a <= b <= md.len(),
            None => stamp_from(md@, 0) is None,
        },
{
    let mut i: usize = 0;
    while i < md.len()
        invariant
            i <= md.len(),
            stamp_from(md@, 0) == stamp_from(md@, i as int),
        decreases md.len() - i,
    {
        match stamp_at(md, i) {
            Some(body) => {
                return Some(body);
            },
            None => {},
        }
        i += 1;
    }
    match stamp_at(md, i) {
        Some(body) => Some(body),
        None => {
            assert(stamp_from(md@, i + 1) is None);
            None
        },
    }
}

/// Reads the fingerprint from the body of a stamp.
pub fn read_hash(body: &str) -> (r: Option<String>)
    ensures
        match r {
            Some(h) => settings_hash(body@) == Some(h@),
            None => settings_hash(body@) is None,
        },
{
    proof {
        reveal_strlit("hash");
    }
    yaml_member(body, HASH_KEY)
}

/// Reads the fingerprint that the first stamp of `md` holds, if there is one.
pub fn extract_stamp(md: &str) -> (r: Option<String>)
    ensures
        match r {
            Some(h) => stamp_hash(md@) == Some(h@),
            None => stamp_hash(md@) is None,
        },
{
    let chars = str_chars(md);
    match find_stamp(&chars) {
        None => None,
        Some((a, b)) => {
            let body = chars_string(&chars, a, b);
            read_hash(body.as_str())
        },
    }
}

/// Writes the stamp that holds `hash`.
pub fn write_stamp(hash: &str) -> (out: String)
    ensures
        out@ == stamp_block(hash@),
{
    let mut out = String::from_str("``` {settings=\"timsync\"}\n");
    let body = yaml_of_member(HASH_KEY, hash);
    out.append(body.as_str());
    out.append("```\n");
    out
}

/// Puts the stamp that holds `hash` above `markdown`.
pub fn with_stamp(markdown: &str, hash: &str) -> (out: String)
    ensures
        out@ == stamped(markdown@, hash@),
{
    let mut out = write_stamp(hash);
    out.append("\n\n");
    out.append(markdown);
    out
}

/// Tests whether the stamp that holds `hash` reads back as it was written.
pub fn stamp_reads_back(hash: &str) -> (r: bool)
    ensures
        r == reads_back(hash@),
{
    let body = yaml_of_member(HASH_KEY, hash);
    let chars = str_chars(body.as_str());
    if find_char(&chars, '`', 0) < chars.len() {
        false
    } else {
        match read_hash(body.as_str()) {
            Some(found) => same_text(found.as_str(), hash),
            None => false,
        }
    }
}

/// What the fence and the key are made of.
proof fn lemma_literals()
    ensures
        fence() == seq!['`', '`', '`'],
        settings_key().len() == 18,
        settings_key()[0] == 's',
{
    reveal_strlit("```");
    reveal_strlit("settings=\"timsync\"");
    assert(fence() =~= seq!['`', '`', '`']);
}

/// Where the parts of the opening line of a stamp stand.
proof fn lemma_head_layout(tail: Seq<char>)
    ensures
        ({
            let s = "``` {settings=\"timsync\"}\n"@ + tail;
            &&& s.len() == 25 + tail.len()
            &&& s.subrange(0, 3) == fence()
            &&& s[3] == ' '
            &&& s[4] == '{'
            &&& s.subrange(5, 23) == settings_key()
            &&& s[23] == '}'
            &&& s[24] == '\n'
            &&& s.subrange(25, s.len() as int) == tail
        }),
{
    reveal_strlit("``` {settings=\"timsync\"}\n");
    reveal_strlit("```");
    reveal_strlit("settings=\"timsync\"");
    let s = "``` {settings=\"timsync\"}\n"@ + tail;
    assert(s.subrange(0, 3) =~= fence());
    assert(s.subrange(5, 23) =~= settings_key());
    assert(s.subrange(25, s.len() as int) =~= tail);
}

/// What follows the body of a stamp starts with a fence.
proof fn lemma_tail_layout(markdown: Seq<char>)
    ensures
        ({
            let t = "```\n"@ + "\n\n"@ + markdown;
            &&& t.len() == 6 + markdown.len()
            &&& t.subrange(0, 3) == fence()
        }),
{
    reveal_strlit("```\n");
    reveal_strlit("\n\n");
    reveal_strlit("```");
    let t = "```\n"@ + "\n\n"@ + markdown;
    assert(t.subrange(0, 3) =~= fence());
}

/// A text without a backtick between `from` and a fence at `close` has its
/// first fence from `from` on at `close`.
proof fn lemma_closing_fence(s: Seq<char>, from: int, close: int)
    requires
        0 <= from <= close,
        forall|j: int| from <= j < close ==> s[j] != '`',
        occurs_at(s, fence(), close),
    ensures
        first_occurrence(s, fence(), from) == Some(close),
{
    lemma_literals();
    assert forall|j: int| from <= j < close implies !occurs_at(s, fence(), j) by {
        if occurs_at(s, fence(), j) {
            assert(s.subrange(j, j + 3)[0] == fence()[0]);
        }
    }
    lemma_first_occurrence(s, fence(), from, close);
}

/// A text that opens with the stamp's first line has its first stamp there.
proof fn lemma_stamp_at_head(s: Seq<char>, close: int)
    requires
        s.len() >= 25,
        s.subrange(0, 3) == fence(),
        s[3] == ' ',
        s[4] == '{',
        s.subrange(5, 23) == settings_key(),
        s[23] == '}',
        s[24] == '\n',
        first_occurrence(s, fence(), 25) == Some(close),
    ensures
        stamp_from(s, 0) == Some((25int, close)),
{
    lemma_literals();
    assert(occurs_at(s, fence(), 0));
    lemma_skip_blanks_is(s, 3, 4);
    assert(s[5] == settings_key()[0]) by {
        assert(s.subrange(5, 23)[0] == s[5]);
    }
    lemma_skip_blanks_is(s, 5, 5);
    assert(occurs_at(s, settings_key(), 5));
    lemma_line_end_is(s, 23, 24);
    assert(stamp_body_at(s, 0) == Some((25int, close)));
}

/// Where the parts of a stamped document stand.
proof fn lemma_stamped_layout(markdown: Seq<char>, hash: Seq<char>)
    ensures
        ({
            let s = stamped(markdown, hash);
            let close = 25 + stamp_body(hash).len() as int;
            &&& s.len() >= close + 3
            &&& s.subrange(0, 3) == fence()
            &&& s[3] == ' '
            &&& s[4] == '{'
            &&& s.subrange(5, 23) == settings_key()
            &&& s[23] == '}'
            &&& s[24] == '\n'
            &&& s.subrange(25, close) == stamp_body(hash)
            &&& s.subrange(close, close + 3) == fence()
        }),
{
    let body = stamp_body(hash);
    let n = body.len() as int;
    let tail = "```\n"@ + "\n\n"@ + markdown;
    let s = stamped(markdown, hash);
    let close = 25 + n;
    assert(s =~= "``` {settings=\"timsync\"}\n"@ + (body + tail));
    lemma_head_layout(body + tail);
    lemma_tail_layout(markdown);
    let rest = s.subrange(25, s.len() as int);
    assert(rest == body + tail);
    assert(s.subrange(25, close) =~= rest.subrange(0, n));
    assert(rest.subrange(0, n) =~= body);
    assert(s.subrange(close, close + 3) =~= rest.subrange(n, n + 3));
    assert(rest.subrange(n, n + 3) =~= tail.subrange(0, 3));
}

/// The body that is found in a stamped document is the body that was
/// written into the stamp, whatever content stands below it, provided
/// that the body holds no backtick.
pub proof fn lemma_stamp_is_found(markdown: Seq<char>, hash: Seq<char>)
    requires
        forall|j: int| 0 <= j < stamp_body(hash).len() ==> stamp_body(hash)[j] != '`',
    ensures
        stamp_settings(stamped(markdown, hash)) == Some(stamp_body(hash)),
{
    let close = 25 + stamp_body(hash).len() as int;
    let s = stamped(markdown, hash);
    lemma_stamped_layout(markdown, hash);
    assert forall|j: int| 25 <= j < close implies s[j] != '`' by {
        assert(s.subrange(25, close)[j - 25] == s[j]);
    }
    assert(occurs_at(s, fence(), close)) by {
        lemma_literals();
    }
    lemma_closing_fence(s, 25, close);
    lemma_stamp_at_head(s, close);
}

/// The fingerprint that is read from a stamped document is the one that
/// was written into the stamp, whatever content stands below it, wherever
/// the stamp reads back as it was written.
pub proof fn lemma_stamp_round_trip(markdown: Seq<char>, hash: Seq<char>)
    requires
        reads_back(hash),
    ensures
        stamp_hash(stamped(markdown, hash)) == Some(hash),
{
    lemma_stamp_is_found(markdown, hash);
}

} // verus!
