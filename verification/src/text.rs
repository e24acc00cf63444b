//! Character-level helpers shared by the rest of the library.
//!
//! Text is `String` at the library's surface and `Seq<char>` in contracts.
//! The scanners below work on `Vec<char>` so that positions are character
//! positions, the same in executable code and in specifications.

use vstd::prelude::*;

verus! {

/// `std::string::String::push`: the character is appended, nothing else changes.
#[verifier::external_body]
fn push_char(s: &mut String, c: char)
    ensures
        final(s)@ == old(s)@.push(c),
{
    s.push(c);
}

/// Appends a character to a text.
pub fn push_text_char(s: &mut String, c: char)
    ensures
        final(s)@ == old(s)@.push(c),
{
    push_char(s, c);
}

/// Copies the characters of a string slice into a vector.
pub fn str_chars(s: &str) -> (out: Vec<char>)
    ensures
        out@ == s@,
{
    broadcast use vstd::string::group_string_axioms;
    let mut out: Vec<char> = Vec::new();
    for c in it: s.chars()
        invariant
            it.seq() == s@,
            out@ == s@.take(it.index()),
    {
        out.push(c);
    }
    out
}

/// Builds a string from the characters `v[from..to]`.
pub fn chars_string(v: &Vec<char>, from: usize, to: usize) -> (out: String)
    requires
        from <= to <= v.len(),
    ensures
        out@ == v@.subrange(from as int, to as int),
{
    let mut out = String::new();
    let mut i: usize = from;
    while i < to
        invariant
            from <= i <= to <= v.len(),
            out@ == v@.subrange(from as int, i as int),
        decreases to - i,
    {
        push_char(&mut out, v[i]);
        i += 1;
    }
    out
}

/// Whether two string slices hold the same characters.
pub fn same_text(a: &str, b: &str) -> (r: bool)
    ensures
        r == (a@ == b@),
{
    let x = str_chars(a);
    let y = str_chars(b);
    same_chars(&x, &y)
}

/// Whether two character vectors hold the same characters.
pub fn same_chars(a: &Vec<char>, b: &Vec<char>) -> (r: bool)
    ensures
        r == (a@ == b@),
{
    if a.len() != b.len() {
        return false;
    }
    let mut i: usize = 0;
    while i < a.len()
        invariant
            a.len() == b.len(),
            i <= a.len(),
            a@.take(i as int) == b@.take(i as int),
        decreases a.len() - i,
    {
        if a[i] != b[i] {
            return false;
        }
        assert(a@.take(i + 1) == a@.take(i as int).push(a@[i as int]));
        assert(b@.take(i + 1) == b@.take(i as int).push(b@[i as int]));
        i += 1;
    }
    assert(a@.take(a.len() as int) == a@);
    assert(b@.take(b.len() as int) == b@);
    true
}

/// `pat` occurs in `text` at position `at`.
pub open spec fn occurs_at(text: Seq<char>, pat: Seq<char>, at: int) -> bool {
    &&& 0 <= at
    &&& at + pat.len() <= text.len()
    &&& text.subrange(at, at + pat.len()) == pat
}

/// Tests whether `pat` occurs in `text` at position `at`.
pub fn matches_at(text: &Vec<char>, pat: &Vec<char>, at: usize) -> (r: bool)
    ensures
        r == occurs_at(text@, pat@, at as int),
{
    if at > text.len() || pat.len() > text.len() - at {
        return false;
    }
    let mut i: usize = 0;
    while i < pat.len()
        invariant
            at + pat.len() <= text.len(),
            i <= pat.len(),
            text@.subrange(at as int, at + i) == pat@.take(i as int),
        decreases pat.len() - i,
    {
        if text[at + i] != pat[i] {
            assert(text@.subrange(at as int, at + pat.len())[i as int] != pat@[i as int]);
            return false;
        }
        assert(text@.subrange(at as int, at + i + 1) == text@.subrange(at as int, at + i).push(
            text@[at + i],
        ));
        assert(pat@.take(i + 1) == pat@.take(i as int).push(pat@[i as int]));
        i += 1;
    }
    assert(pat@.take(pat.len() as int) == pat@);
    true
}

/// The first position at or after `from` where `pat` occurs in `text`, if any.
pub open spec fn first_occurrence(text: Seq<char>, pat: Seq<char>, from: int) -> Option<int>
    decreases text.len() + 1 - from,
{
    if from < 0 || from > text.len() {
        None
    } else if occurs_at(text, pat, from) {
        Some(from)
    } else {
        first_occurrence(text, pat, from + 1)
    }
}

/// `k` is the first position at or after `from` where `pat` occurs in `text`.
pub open spec fn is_first_occurrence(text: Seq<char>, pat: Seq<char>, from: int, k: int) -> bool {
    &&& from <= k
    &&& occurs_at(text, pat, k)
    &&& forall|j: int| from <= j < k ==> !occurs_at(text, pat, j)
}

/// A first occurrence is what `first_occurrence` names.
pub proof fn lemma_first_occurrence(text: Seq<char>, pat: Seq<char>, from: int, k: int)
    requires
        from >= 0,
        is_first_occurrence(text, pat, from, k),
    ensures
        first_occurrence(text, pat, from) == Some(k),
    decreases k - from,
{
    if from < k {
        assert(!occurs_at(text, pat, from));
        lemma_first_occurrence(text, pat, from + 1, k);
    }
}

/// No occurrence at or after `from` means `first_occurrence` is `None`.
pub proof fn lemma_no_occurrence(text: Seq<char>, pat: Seq<char>, from: int)
    requires
        forall|j: int| from <= j ==> !occurs_at(text, pat, j),
    ensures
        first_occurrence(text, pat, from) is None,
    decreases text.len() + 1 - from,
{
    if 0 <= from <= text.len() {
        assert(!occurs_at(text, pat, from));
        lemma_no_occurrence(text, pat, from + 1);
    }
}

/// What `first_occurrence` returns is a first occurrence.
pub proof fn lemma_first_occurrence_is_first(text: Seq<char>, pat: Seq<char>, from: int)
    requires
        from >= 0,
    ensures
        match first_occurrence(text, pat, from) {
            Some(k) => is_first_occurrence(text, pat, from, k),
            None => forall|j: int| from <= j ==> !occurs_at(text, pat, j),
        },
    decreases text.len() + 1 - from,
{
    if from <= text.len() && !occurs_at(text, pat, from) {
        lemma_first_occurrence_is_first(text, pat, from + 1);
        match first_occurrence(text, pat, from + 1) {
            Some(k) => {
                assert forall|j: int| from <= j < k implies !occurs_at(text, pat, j) by {
                    if j > from {
                    }
                }
            },
            None => {
                assert forall|j: int| from <= j implies !occurs_at(text, pat, j) by {
                    if j > from {
                    }
                }
            },
        }
    }
}

/// Searches `text` for `pat` from position `from` on.
pub fn find_from(text: &Vec<char>, pat: &Vec<char>, from: usize) -> (r: Option<usize>)
    ensures
        match r {
            Some(k) => first_occurrence(text@, pat@, from as int) == Some(k as int),
            None => first_occurrence(text@, pat@, from as int) is None,
        },
{
    let mut i: usize = from;
    while i < text.len()
        invariant
            from <= i,
            forall|j: int| from <= j < i ==> !occurs_at(text@, pat@, j),
        decreases text.len() - i,
    {
        if matches_at(text, pat, i) {
            proof {
                lemma_first_occurrence(text@, pat@, from as int, i as int);
            }
            return Some(i);
        }
        i += 1;
    }
    if i == text.len() && matches_at(text, pat, i) {
        proof {
            lemma_first_occurrence(text@, pat@, from as int, i as int);
        }
        return Some(i);
    }
    proof {
        assert forall|j: int| from <= j implies !occurs_at(text@, pat@, j) by {
            if j > text@.len() {
                assert(j + pat@.len() > text@.len());
            }
        }
        lemma_no_occurrence(text@, pat@, from as int);
    }
    None
}

/// Copies the characters of `v` from `from` on.
pub fn skip_chars(v: &Vec<char>, from: usize) -> (out: Vec<char>)
    requires
        from <= v.len(),
    ensures
        out@ == v@.skip(from as int),
{
    assert(v@.subrange(from as int, v.len() as int) =~= v@.skip(from as int));
    sub_chars(v, from, v.len())
}

/// Builds a string from the first `to` characters of `v`.
pub fn take_string(v: &Vec<char>, to: usize) -> (out: String)
    requires
        to <= v.len(),
    ensures
        out@ == v@.take(to as int),
{
    assert(v@.subrange(0, to as int) =~= v@.take(to as int));
    chars_string(v, 0, to)
}

/// Builds a string from the characters of `v` from `from` on.
pub fn skip_string(v: &Vec<char>, from: usize) -> (out: String)
    requires
        from <= v.len(),
    ensures
        out@ == v@.skip(from as int),
{
    assert(v@.subrange(from as int, v.len() as int) =~= v@.skip(from as int));
    chars_string(v, from, v.len())
}

/// Copies the characters `v[from..to]`.
pub fn sub_chars(v: &Vec<char>, from: usize, to: usize) -> (out: Vec<char>)
    requires
        from <= to <= v.len(),
    ensures
        out@ == v@.subrange(from as int, to as int),
{
    let mut out: Vec<char> = Vec::new();
    let mut i: usize = from;
    while i < to
        invariant
            from <= i <= to <= v.len(),
            out@ == v@.subrange(from as int, i as int),
        decreases to - i,
    {
        out.push(v[i]);
        i += 1;
    }
    out
}

/// White space, as Unicode defines it.
pub open spec fn is_whitespace(c: char) -> bool {
    let n = c as u32;
    (0x09 <= n && n <= 0x0d) || n == 0x20 || n == 0x85 || n == 0xa0 || n == 0x1680 || (0x2000 <= n
        && n <= 0x200a) || n == 0x2028 || n == 0x2029 || n == 0x202f || n == 0x205f || n == 0x3000
}

/// Whether `c` is white space.
pub fn whitespace(c: char) -> (r: bool)
    ensures
        r == is_whitespace(c),
{
    let n = c as u32;
    (0x09 <= n && n <= 0x0d) || n == 0x20 || n == 0x85 || n == 0xa0 || n == 0x1680 || (0x2000 <= n
        && n <= 0x200a) || n == 0x2028 || n == 0x2029 || n == 0x202f || n == 0x205f || n == 0x3000
}

/// `s` without the white space it starts with.
pub open spec fn trim_start(s: Seq<char>) -> Seq<char>
    decreases s.len(),
{
    if s.len() > 0 && is_whitespace(s[0]) {
        trim_start(s.drop_first())
    } else {
        s
    }
}

/// `s` without the white space it ends with.
pub open spec fn trim_end(s: Seq<char>) -> Seq<char>
    decreases s.len(),
{
    if s.len() > 0 && is_whitespace(s.last()) {
        trim_end(s.drop_last())
    } else {
        s
    }
}

/// What is left of `s` is a prefix of `s`.
pub proof fn lemma_trim_end_prefix(s: Seq<char>)
    ensures
        trim_end(s).len() <= s.len(),
        trim_end(s) == s.take(trim_end(s).len() as int),
    decreases s.len(),
{
    if s.len() > 0 && is_whitespace(s.last()) {
        lemma_trim_end_prefix(s.drop_last());
        assert(s.drop_last().take(trim_end(s).len() as int) =~= s.take(trim_end(s).len() as int));
    } else {
        assert(s.take(s.len() as int) =~= s);
    }
}

/// The length of `v[from..to]` without the white space it ends with.
pub fn trimmed_end_len(v: &Vec<char>, from: usize, to: usize) -> (n: usize)
    requires
        from <= to <= v.len(),
    ensures
        n == trim_end(v@.subrange(from as int, to as int)).len(),
        n <= to - from,
{
    let mut b: usize = to;
    while b > from && whitespace(v[b - 1])
        invariant
            from <= b <= to <= v.len(),
            trim_end(v@.subrange(from as int, to as int)) == trim_end(
                v@.subrange(from as int, b as int),
            ),
        decreases b - from,
    {
        assert(v@.subrange(from as int, b as int).drop_last() == v@.subrange(from as int, b - 1));
        b -= 1;
    }
    b - from
}

/// A copy of `v` without the white space around it.
pub fn trimmed(v: &Vec<char>) -> (out: Vec<char>)
    ensures
        out@ == trim_end(trim_start(v@)),
{
    let mut a: usize = 0;
    assert(v@.skip(0) == v@);
    while a < v.len() && whitespace(v[a])
        invariant
            a <= v.len(),
            trim_start(v@) == trim_start(v@.skip(a as int)),
        decreases v.len() - a,
    {
        assert(v@.skip(a as int).drop_first() == v@.skip(a + 1));
        a += 1;
    }
    assert(trim_start(v@) == v@.skip(a as int));
    assert(v@.subrange(a as int, v.len() as int) == v@.skip(a as int));
    let n = trimmed_end_len(v, a, v.len());
    proof {
        lemma_trim_end_prefix(v@.skip(a as int));
        assert(v@.skip(a as int).take(n as int) =~= v@.subrange(a as int, a + n));
    }
    sub_chars(v, a, a + n)
}

/// The first position at or after `from` that holds `c`, or `from` if it is
/// past the end, or the length of `s` if none holds it.
pub open spec fn char_pos(s: Seq<char>, c: char, from: int) -> int
    decreases s.len() - from,
{
    if 0 <= from < s.len() && s[from] != c {
        char_pos(s, c, from + 1)
    } else {
        from
    }
}

/// A position up to which no `c` stands, and that holds one or is the end, is `char_pos`.
pub proof fn lemma_char_pos_is(s: Seq<char>, c: char, from: int, to: int)
    requires
        0 <= from <= to <= s.len(),
        forall|j: int| from <= j < to ==> s[j] != c,
        to < s.len() ==> s[to] == c,
    ensures
        char_pos(s, c, from) == to,
    decreases to - from,
{
    if from < to {
        lemma_char_pos_is(s, c, from + 1, to);
    }
}

/// Finds the first position at or after `from` that holds `c`.
pub fn find_char(v: &Vec<char>, c: char, from: usize) -> (r: usize)
    requires
        from <= v.len(),
    ensures
        r == char_pos(v@, c, from as int),
        from <= r <= v.len(),
        r < v.len() ==> v@[r as int] == c,
        forall|j: int| from <= j < r ==> v@[j] != c,
{
    let mut i: usize = from;
    while i < v.len() && v[i] != c
        invariant
            from <= i <= v.len(),
            forall|j: int| from <= j < i ==> v@[j] != c,
        decreases v.len() - i,
    {
        i += 1;
    }
    proof {
        lemma_char_pos_is(v@, c, from as int, i as int);
    }
    i
}

/// The last position that holds `c`, or `-1` if none does.
pub open spec fn last_pos(s: Seq<char>, c: char) -> int
    decreases s.len(),
{
    if s.len() == 0 {
        -1
    } else if s.last() == c {
        s.len() - 1
    } else {
        last_pos(s.drop_last(), c)
    }
}

/// `last_pos` is a position of `s` or `-1`, and no `c` stands after it.
pub proof fn lemma_last_pos(s: Seq<char>, c: char)
    ensures
        -1 <= last_pos(s, c) < s.len(),
        last_pos(s, c) >= 0 ==> s[last_pos(s, c)] == c,
        forall|j: int| last_pos(s, c) < j < s.len() ==> s[j] != c,
    decreases s.len(),
{
    if s.len() > 0 && s.last() != c {
        lemma_last_pos(s.drop_last(), c);
        assert forall|j: int| last_pos(s, c) < j < s.len() implies s[j] != c by {
            if j < s.len() - 1 {
                assert(s.drop_last()[j] == s[j]);
            }
        }
    }
}

/// Finds the position after the last `c`: `0` if there is none.
pub fn after_last(v: &Vec<char>, c: char) -> (r: usize)
    ensures
        r == last_pos(v@, c) + 1,
        r <= v.len(),
{
    let mut i: usize = v.len();
    assert(v@.take(i as int) == v@);
    while i > 0 && v[i - 1] != c
        invariant
            i <= v.len(),
            last_pos(v@, c) == last_pos(v@.take(i as int), c),
        decreases i,
    {
        assert(v@.take(i as int).drop_last() == v@.take(i - 1));
        i -= 1;
    }
    i
}

/// `s` with every `from` replaced by `to`.
pub open spec fn replace_char(s: Seq<char>, from: char, to: char) -> Seq<char> {
    s.map_values(|c: char| if c == from { to } else { c })
}

/// Replaces every `from` in `s` by `to`.
pub fn with_char_replaced(s: &str, from: char, to: char) -> (out: String)
    ensures
        out@ == replace_char(s@, from, to),
{
    let v = str_chars(s);
    let mut w: Vec<char> = Vec::new();
    let mut i: usize = 0;
    while i < v.len()
        invariant
            i <= v.len(),
            w.len() == i,
            forall|k: int| 0 <= k < i ==> w@[k] == (if v@[k] == from { to } else { v@[k] }),
        decreases v.len() - i,
    {
        w.push(if v[i] == from { to } else { v[i] });
        i += 1;
    }
    let out = chars_string(&w, 0, w.len());
    assert(out@ =~= replace_char(s@, from, to));
    out
}

/// The lower-case form of a text, as `str::to_lowercase` gives it.
pub uninterp spec fn lowercase_of(s: Seq<char>) -> Seq<char>;

/// `str::to_lowercase`: the lower-case form of the text.
#[verifier::external_body]
pub(crate) fn to_lowercase(s: &str) -> (out: String)
    ensures
        out@ == lowercase_of(s@),
{
    s.to_lowercase()
}

/// Whether `a` comes before `b` in the order of texts: by the first
/// character in which they differ, or the shorter first where one starts the other.
pub open spec fn lex_less(a: Seq<char>, b: Seq<char>) -> bool
    decreases a.len(),
{
    if b.len() == 0 {
        false
    } else if a.len() == 0 {
        true
    } else if a[0] != b[0] {
        (a[0] as u32) < (b[0] as u32)
    } else {
        lex_less(a.drop_first(), b.drop_first())
    }
}

/// Different characters have different codes.
pub proof fn lemma_char_code(c: char, d: char)
    ensures
        c != d ==> c as u32 != d as u32,
{
}

/// Of two different texts one comes before the other.
pub proof fn lemma_lex_less_total(a: Seq<char>, b: Seq<char>)
    ensures
        a == b || lex_less(a, b) || lex_less(b, a),
    decreases a.len(),
{
    if a.len() > 0 && b.len() > 0 {
        if a[0] == b[0] {
            lemma_lex_less_total(a.drop_first(), b.drop_first());
            if a.drop_first() == b.drop_first() {
                assert(a =~= seq![a[0]] + a.drop_first());
                assert(b =~= seq![b[0]] + b.drop_first());
            }
        } else {
            lemma_char_code(a[0], b[0]);
        }
    } else if a.len() == 0 && b.len() == 0 {
        assert(a =~= b);
    }
}

/// The order of texts is transitive.
pub proof fn lemma_lex_less_transitive(a: Seq<char>, b: Seq<char>, c: Seq<char>)
    requires
        lex_less(a, b),
        lex_less(b, c),
    ensures
        lex_less(a, c),
    decreases a.len(),
{
    if a.len() > 0 && b.len() > 0 && c.len() > 0 && a[0] == b[0] && b[0] == c[0] {
        lemma_lex_less_transitive(a.drop_first(), b.drop_first(), c.drop_first());
    }
}

/// Whether `a` comes before `b` in the order of texts.
pub fn text_less(a: &str, b: &str) -> (r: bool)
    ensures
        r == lex_less(a@, b@),
{
    let x = str_chars(a);
    let y = str_chars(b);
    let mut i: usize = 0;
    assert(x@.skip(0) == x@);
    assert(y@.skip(0) == y@);
    while i < x.len() && i < y.len()
        invariant
            i <= x.len(),
            i <= y.len(),
            x@ == a@,
            y@ == b@,
            lex_less(x@, y@) == lex_less(x@.skip(i as int), y@.skip(i as int)),
        decreases x.len() - i,
    {
        if x[i] != y[i] {
            assert(x@.skip(i as int)[0] == x@[i as int]);
            assert(y@.skip(i as int)[0] == y@[i as int]);
            return (x[i] as u32) < (y[i] as u32);
        }
        assert(x@.skip(i as int).drop_first() == x@.skip(i + 1));
        assert(y@.skip(i as int).drop_first() == y@.skip(i + 1));
        i += 1;
    }
    i < y.len()
}

} // verus!
