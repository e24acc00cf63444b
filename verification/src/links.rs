//! Rewriting the link targets of a rendered document: relative targets
//! become absolute addresses in the remote store.

use vstd::prelude::*;
use vstd::string::StringSliceAdditionalSpecFns;
use url::{ParseError, Url};
use crate::markdown_tree::{link_views, DocumentLink, LinkView};
use crate::path::{generate_hashed_filename, hashed_filename};
use crate::text::{chars_string, matches_at, occurs_at, same_text, str_chars};
use crate::upload_files::UploadFiles;

verus! {

/// A replacement of the bytes `start..end` of a text by `text`.
#[derive(Debug)]
pub struct Replacement {
    pub start: usize,
    pub end: usize,
    pub text: Vec<u8>,
}

/// A `Replacement` as contracts see it.
pub struct ReplacementView {
    pub start: int,
    pub end: int,
    pub text: Seq<u8>,
}

impl View for Replacement {
    type V = ReplacementView;

    open spec fn view(&self) -> ReplacementView {
        ReplacementView { start: self.start as int, end: self.end as int, text: self.text@ }
    }
}

/// The views of a list of replacements.
pub open spec fn replacement_views(reps: Seq<Replacement>) -> Seq<ReplacementView> {
    reps.map_values(|r: Replacement| r@)
}

/// The replacements lie within a text of `len` bytes, one after the other.
pub open spec fn ordered(reps: Seq<ReplacementView>, len: int) -> bool {
    &&& forall|i: int| 0 <= i < reps.len() ==> 0 <= (#[trigger] reps[i]).start <= reps[i].end <= len
    &&& forall|i: int, j: int|
        0 <= i && j == i + 1 && j < reps.len() ==> (#[trigger] reps[i]).end <= (#[trigger] reps[j]).start
}

/// The text from byte `pos` on, with the replacements from number `from` on
/// made: what stands between replacements stays, in its place.
pub open spec fn spliced(contents: Seq<u8>, reps: Seq<ReplacementView>, from: int, pos: int) -> Seq<u8>
    decreases reps.len() - from,
{
    if from < 0 || from >= reps.len() {
        contents.skip(pos)
    } else {
        contents.subrange(pos, reps[from].start) + reps[from].text + spliced(
            contents,
            reps,
            from + 1,
            reps[from].end,
        )
    }
}

/// The text with all replacements made.
pub open spec fn rewritten(contents: Seq<u8>, reps: Seq<ReplacementView>) -> Seq<u8> {
    spliced(contents, reps, 0, 0)
}

/// A text with the bytes `a..b` replaced by `t`.
pub open spec fn range_replaced(s: Seq<u8>, a: int, b: int, t: Seq<u8>) -> Seq<u8> {
    s.take(a) + t + s.skip(b)
}

/// By how many bytes the replacements before number `i` have moved what follows them.
pub open spec fn shift_before(reps: Seq<ReplacementView>, i: int) -> int
    decreases i,
{
    if i <= 0 {
        0
    } else {
        shift_before(reps, i - 1) + reps[i - 1].text.len() - (reps[i - 1].end - reps[i - 1].start)
    }
}

/// Replaces the bytes `a..b` of `v` by `t`.
pub fn replace_range(v: &Vec<u8>, a: usize, b: usize, t: &Vec<u8>) -> (out: Vec<u8>)
    requires
        a <= b <= v.len(),
    ensures
        out@ == range_replaced(v@, a as int, b as int, t@),
{
    let mut out: Vec<u8> = Vec::new();
    let mut i: usize = 0;
    while i < a
        invariant
            i <= a <= v.len(),
            out@ == v@.take(i as int),
        decreases a - i,
    {
        out.push(v[i]);
        i += 1;
    }
    let mut k: usize = 0;
    while k < t.len()
        invariant
            k <= t.len(),
            out@ == v@.take(a as int) + t@.take(k as int),
        decreases t.len() - k,
    {
        out.push(t[k]);
        assert(t@.take(k + 1) == t@.take(k as int).push(t@[k as int]));
        k += 1;
    }
    assert(t@.take(t.len() as int) == t@);
    let mut j: usize = b;
    while j < v.len()
        invariant
            b <= j <= v.len(),
            out@ == v@.take(a as int) + t@ + v@.subrange(b as int, j as int),
        decreases v.len() - j,
    {
        out.push(v[j]);
        assert(v@.subrange(b as int, j + 1) == v@.subrange(b as int, j as int).push(v@[j as int]));
        j += 1;
    }
    assert(v@.subrange(b as int, v.len() as int) == v@.skip(b as int));
    out
}

/// Where a replacement goes among replacements in the order of their
/// starts: before the first that starts later.
pub open spec fn insert_place(sorted: Seq<ReplacementView>, r: ReplacementView) -> int
    decreases sorted.len(),
{
    if sorted.len() == 0 || sorted[0].start > r.start {
        0
    } else {
        1 + insert_place(sorted.drop_first(), r)
    }
}

/// The first `n` replacements in the order of their starts, those with one
/// start in the order in which they came.
pub open spec fn sorted_by_start(reps: Seq<ReplacementView>, n: int) -> Seq<ReplacementView>
    decreases n,
{
    if n <= 0 {
        Seq::empty()
    } else {
        let before = sorted_by_start(reps, n - 1);
        before.insert(insert_place(before, reps[n - 1]), reps[n - 1])
    }
}

/// `insert_place` is a place of the sequence or its end.
pub proof fn lemma_insert_place(sorted: Seq<ReplacementView>, r: ReplacementView)
    ensures
        0 <= insert_place(sorted, r) <= sorted.len(),
    decreases sorted.len(),
{
    if sorted.len() > 0 && sorted[0].start <= r.start {
        lemma_insert_place(sorted.drop_first(), r);
    }
}

/// Puts the replacements into the order of their starts.
pub fn sort_by_start(reps: Vec<Replacement>) -> (out: Vec<Replacement>)
    ensures
        replacement_views(out@) == sorted_by_start(
            replacement_views(reps@),
            reps@.len() as int,
        ),
{
    let ghost all = replacement_views(reps@);
    let ghost items = reps@;
    let mut out: Vec<Replacement> = Vec::new();
    assert(replacement_views(out@) =~= sorted_by_start(all, 0));
    for rep in it: reps
        invariant
            it.seq() == items,
            all == replacement_views(items),
            replacement_views(out@) == sorted_by_start(all, it.index()),
    {
        let ghost sorted = replacement_views(out@);
        assert(all[it.index()] == rep@);
        let mut k: usize = 0;
        assert(sorted.skip(0) == sorted);
        while k < out.len() && out[k].start <= rep.start
            invariant
                k <= out.len(),
                sorted == replacement_views(out@),
                insert_place(sorted, rep@) == k + insert_place(sorted.skip(k as int), rep@),
            decreases out.len() - k,
        {
            assert(sorted.skip(k as int)[0] == out@[k as int]@);
            assert(sorted.skip(k as int).drop_first() == sorted.skip(k + 1));
            k += 1;
        }
        proof {
            if k < out.len() {
                assert(sorted.skip(k as int)[0] == out@[k as int]@);
            }
        }
        let ghost view = rep@;
        out.insert(k, rep);
        assert(replacement_views(out@) =~= sorted.insert(k as int, view));
    }
    out
}

/// Whether the replacements lie within a text of `len` bytes, one after the other.
pub fn ranges_ordered(reps: &Vec<Replacement>, len: usize) -> (r: bool)
    ensures
        r == ordered(replacement_views(reps@), len as int),
{
    let ghost rv = replacement_views(reps@);
    let mut i: usize = 0;
    while i < reps.len()
        invariant
            i <= reps.len(),
            rv == replacement_views(reps@),
            forall|k: int| 0 <= k < i ==> 0 <= (#[trigger] rv[k]).start <= rv[k].end <= len,
            forall|k: int, j: int|
                0 <= k && j == k + 1 && j < i ==> (#[trigger] rv[k]).end <= (#[trigger] rv[j]).start,
        decreases reps.len() - i,
    {
        if !(reps[i].start <= reps[i].end && reps[i].end <= len) {
            assert(!(0 <= rv[i as int].start <= rv[i as int].end <= len));
            return false;
        }
        if i > 0 && reps[i - 1].end > reps[i].start {
            assert(rv[i - 1].end > rv[i as int].start);
            return false;
        }
        i += 1;
    }
    true
}

/// Makes the replacements in one pass from left to right. Each replacement is
/// made in the text as the replacements before it have left it, at its
/// offsets moved by the running offset: the bytes that those have added, less
/// the bytes that they have taken away.
pub fn rewrite_ranges(contents: &Vec<u8>, reps: &Vec<Replacement>) -> (out: Vec<u8>)
    requires
        ordered(replacement_views(reps@), contents.len() as int),
    ensures
        out@ == rewritten(contents@, replacement_views(reps@)),
{
    let ghost rv = replacement_views(reps@);
    let ghost c = contents@;
    let mut out: Vec<u8> = replace_range(contents, 0, 0, &Vec::new());
    let mut offset: i128 = 0;
    let mut i: usize = 0;
    let ghost mut done: Seq<u8> = Seq::empty();
    let ghost mut cursor: int = 0;
    assert(out@ =~= done + c.skip(0));
    while i < reps.len()
        invariant
            i <= reps.len(),
            rv == replacement_views(reps@),
            c == contents@,
            ordered(rv, c.len() as int),
            0 <= cursor <= c.len(),
            i > 0 ==> cursor == rv[i - 1].end,
            i == 0 ==> cursor == 0,
            out@ == done + c.skip(cursor),
            offset == done.len() - cursor,
            offset == shift_before(rv, i as int),
            rewritten(c, rv) == done + spliced(c, rv, i as int, cursor),
        decreases reps.len() - i,
    {
        let rep = &reps[i];
        assert(rv[i as int] == rep@);
        assert(cursor <= rep.start) by {
            if i > 0 {
                assert(rv[i - 1].end <= rv[i as int].start);
            }
        }
        let start = (rep.start as i128 + offset) as usize;
        let end = (rep.end as i128 + offset) as usize;
        let ghost before = out@;
        out = replace_range(&out, start, end, &rep.text);
        proof {
            let kept = c.subrange(cursor, rep.start as int);
            assert(before.take(start as int) =~= done + kept);
            assert(before.skip(end as int) =~= c.skip(rep.end as int));
            done = done + kept + rep.text@;
            assert(out@ =~= done + c.skip(rep.end as int));
            assert(rewritten(c, rv) =~= done + spliced(c, rv, i + 1, rep.end as int));
            cursor = rep.end as int;
        }
        offset = offset + rep.text.len() as i128 - (rep.end as i128 - rep.start as i128);
        i += 1;
    }
    out
}

/// Every replacement text stands in the rewritten text
/// at its start in the source text, moved by the bytes that the
/// replacements before it have added less those that they have taken away.
pub proof fn lemma_replacement_at_shifted_offset(
    contents: Seq<u8>,
    reps: Seq<ReplacementView>,
    i: int,
)
    requires
        ordered(reps, contents.len() as int),
        0 <= i < reps.len(),
    ensures
        0 <= reps[i].start + shift_before(reps, i),
        reps[i].start + shift_before(reps, i) + reps[i].text.len() <= rewritten(contents, reps).len(),
        rewritten(contents, reps).subrange(
            reps[i].start + shift_before(reps, i),
            reps[i].start + shift_before(reps, i) + reps[i].text.len(),
        ) == reps[i].text,
{
    lemma_spliced_position(contents, reps, 0, 0, i);
}

/// The bytes added less the bytes taken away by the replacements `from..i`.
pub open spec fn shift_between(reps: Seq<ReplacementView>, from: int, i: int) -> int {
    shift_before(reps, i) - shift_before(reps, from)
}

/// Where a replacement text stands in the text from `pos` on, with the
/// replacements from number `from` on made.
proof fn lemma_spliced_position(
    contents: Seq<u8>,
    reps: Seq<ReplacementView>,
    from: int,
    pos: int,
    i: int,
)
    requires
        ordered(reps, contents.len() as int),
        0 <= from <= i < reps.len(),
        0 <= pos <= reps[from].start,
    ensures
        ({
            let at = reps[i].start - pos + shift_between(reps, from, i);
            &&& 0 <= at
            &&& at + reps[i].text.len() <= spliced(contents, reps, from, pos).len()
            &&& spliced(contents, reps, from, pos).subrange(at, at + reps[i].text.len())
                == reps[i].text
        }),
    decreases i - from,
{
    let whole = spliced(contents, reps, from, pos);
    let kept = contents.subrange(pos, reps[from].start);
    let rest = spliced(contents, reps, from + 1, reps[from].end);
    assert(whole == kept + reps[from].text + rest);
    if from == i {
        assert(shift_between(reps, from, i) == 0);
        assert(whole.subrange(kept.len() as int, kept.len() as int + reps[i].text.len()) =~= reps[i].text);
    } else {
        assert(reps[from].end <= reps[from + 1].start);
        lemma_spliced_position(contents, reps, from + 1, reps[from].end, i);
        let inner = reps[i].start - reps[from].end + shift_between(reps, from + 1, i);
        let lead = kept.len() + reps[from].text.len();
        assert(shift_before(reps, from + 1) == shift_before(reps, from) + reps[from].text.len() - (
        reps[from].end - reps[from].start));
        assert(lead + inner == reps[i].start - pos + shift_between(reps, from, i));
        assert(whole.subrange(lead + inner, lead + inner + reps[i].text.len()) =~= rest.subrange(
            inner,
            inner + reps[i].text.len(),
        ));
    }
}

/// Whether the `url` crate takes `url` for a relative reference: parsing it
/// fails for want of a base.
pub uninterp spec fn url_is_relative(url: Seq<char>) -> bool;

/// The `file:` address of the directory at a local path, as the `url` crate
/// writes it. There is none for a path that is not absolute.
pub uninterp spec fn directory_url_of(path: Seq<char>) -> Option<Seq<char>>;

/// The `file:` address of the file at a local path, as the `url` crate writes
/// it. There is none for a path that is not absolute.
pub uninterp spec fn file_url_of(path: Seq<char>) -> Option<Seq<char>>;

/// The address that the `url` crate resolves `reference` to against `base`.
pub uninterp spec fn joined_url(base: Seq<char>, reference: Seq<char>) -> Option<Seq<char>>;

/// The path of an address, as the `url` crate gives it.
pub uninterp spec fn path_of_url(url: Seq<char>) -> Option<Seq<char>>;

/// The address `url` with `path` for its path, as the `url` crate writes it.
pub uninterp spec fn url_with_path(url: Seq<char>, path: Seq<char>) -> Option<Seq<char>>;

/// The local path that a `file:` address stands for, as the `url` crate gives it.
pub uninterp spec fn file_path_of_url(url: Seq<char>) -> Option<Seq<char>>;

/// A text with every occurrence of `pattern` taken out, from left to right:
/// after an occurrence the search goes on behind it. An empty pattern takes
/// nothing out.
pub open spec fn text_without(text: Seq<char>, pattern: Seq<char>) -> Seq<char>
    decreases text.len(),
{
    if pattern.len() == 0 || text.len() == 0 {
        text
    } else if occurs_at(text, pattern, 0) {
        text_without(text.skip(pattern.len() as int), pattern)
    } else {
        seq![text[0]] + text_without(text.drop_first(), pattern)
    }
}

/// `url::Url::parse`: whether it fails with `RelativeUrlWithoutBase`.
#[verifier::external_body]
fn is_relative_reference(url: &str) -> (r: bool)
    ensures
        r == url_is_relative(url@),
{
    matches!(Url::parse(url), Err(ParseError::RelativeUrlWithoutBase))
}

/// `url::Url::from_directory_path`, written out as text.
#[verifier::external_body]
fn directory_url(path: &str) -> (r: Option<String>)
    ensures
        r.is_some() == directory_url_of(path@).is_some(),
        r matches Some(u) ==> directory_url_of(path@) == Some(u@),
{
    Url::from_directory_path(path).ok().map(|u| u.to_string())
}

/// `url::Url::from_file_path`, written out as text.
#[verifier::external_body]
fn file_url(path: &str) -> (r: Option<String>)
    ensures
        r.is_some() == file_url_of(path@).is_some(),
        r matches Some(u) ==> file_url_of(path@) == Some(u@),
{
    Url::from_file_path(path).ok().map(|u| u.to_string())
}

/// `url::Url::join` on the address `base`, written out as text.
#[verifier::external_body]
fn join_url(base: &str, reference: &str) -> (r: Option<String>)
    ensures
        r.is_some() == joined_url(base@, reference@).is_some(),
        r matches Some(u) ==> joined_url(base@, reference@) == Some(u@),
{
    Url::parse(base).ok().and_then(|b| b.join(reference).ok()).map(|u| u.to_string())
}

/// `url::Url::path` of the address `url`.
#[verifier::external_body]
fn url_path(url: &str) -> (r: Option<String>)
    ensures
        r.is_some() == path_of_url(url@).is_some(),
        r matches Some(p) ==> path_of_url(url@) == Some(p@),
{
    Url::parse(url).ok().map(|u| u.path().to_string())
}

/// `url::Url::set_path` on the address `url`, written out as text.
#[verifier::external_body]
fn set_url_path(url: &str, path: &str) -> (r: Option<String>)
    ensures
        r.is_some() == url_with_path(url@, path@).is_some(),
        r matches Some(u) ==> url_with_path(url@, path@) == Some(u@),
{
    Url::parse(url).ok().map(|mut u| {
        u.set_path(path);
        u.to_string()
    })
}

/// `url::Url::to_file_path` of the address `url`, written out as text.
#[verifier::external_body]
fn url_file_path(url: &str) -> (r: Option<String>)
    ensures
        r.is_some() == file_path_of_url(url@).is_some(),
        r matches Some(p) ==> file_path_of_url(url@) == Some(p@),
{
    Url::parse(url).ok().and_then(|u| u.to_file_path().ok()).map(|p| p.to_string_lossy().to_string())
}

/// Takes every occurrence of `pattern` out of `text`.
pub fn remove_all(text: &str, pattern: &str) -> (out: String)
    ensures
        out@ == text_without(text@, pattern@),
{
    let v = str_chars(text);
    let pat = str_chars(pattern);
    if pat.len() == 0 {
        return String::from_str(text);
    }
    let mut kept: Vec<char> = Vec::new();
    let mut i: usize = 0;
    assert(v@.skip(0) == v@);
    assert(Seq::<char>::empty() + text_without(v@, pat@) =~= text_without(v@, pat@));
    while i < v.len()
        invariant
            i <= v.len(),
            pat.len() > 0,
            text_without(v@, pat@) == kept@ + text_without(v@.skip(i as int), pat@),
        decreases v.len() - i,
    {
        let ghost rest = v@.skip(i as int);
        let here = matches_at(&v, &pat, i);
        proof {
            assert(occurs_at(v@, pat@, i as int) == occurs_at(rest, pat@, 0)) by {
                if i + pat.len() <= v.len() {
                    assert(rest.subrange(0, pat.len() as int) =~= v@.subrange(
                        i as int,
                        i + pat.len(),
                    ));
                }
            }
        }
        if here {
            assert(rest.skip(pat.len() as int) =~= v@.skip(i + pat.len()));
            i += pat.len();
        } else {
            let ghost before = kept@;
            kept.push(v[i]);
            proof {
                assert(rest.drop_first() =~= v@.skip(i + 1));
                assert(before + (seq![rest[0]] + text_without(rest.drop_first(), pat@)) =~= kept@
                    + text_without(v@.skip(i + 1), pat@));
            }
            i += 1;
        }
    }
    assert(kept@ + text_without(v@.skip(i as int), pat@) =~= kept@);
    let out = chars_string(&kept, 0, kept.len());
    assert(kept@.subrange(0, kept.len() as int) =~= kept@);
    out
}

/// `String::from_utf8`: the text that the bytes encode, if they encode one.
#[verifier::external_body]
fn string_from_utf8(bytes: Vec<u8>) -> (r: Option<String>)
    ensures
        match r {
            Some(s) => vstd::utf8::encode_utf8(s@) == bytes@,
            None => !vstd::utf8::valid_utf8(bytes@),
        },
{
    String::from_utf8(bytes).ok()
}

/// What a link target turns out to be.
#[derive(Debug)]
pub enum LinkTarget {
    /// Not a relative reference: it stays as it is.
    Keep,
    /// A reference to another document: the address under which the remote
    /// store shows that document.
    Document(String),
    /// A reference to a local file that is no document: the file's local path.
    Asset(String),
}

/// A `LinkTarget` as contracts see it.
pub enum LinkTargetView {
    Keep,
    Document(Seq<char>),
    Asset(Seq<char>),
}

impl View for LinkTarget {
    type V = LinkTargetView;

    open spec fn view(&self) -> LinkTargetView {
        match self {
            LinkTarget::Keep => LinkTargetView::Keep,
            LinkTarget::Document(u) => LinkTargetView::Document(u@),
            LinkTarget::Asset(p) => LinkTargetView::Asset(p@),
        }
    }
}

/// Why a relative reference cannot be resolved.
#[derive(Clone, Copy, Debug, PartialEq, Eq, Structural)]
pub enum LinkError {
    /// The project directory is no absolute path.
    ProjectDirNotAbsolute,
    /// The path of the file that holds the link is no absolute path.
    FilePathNotAbsolute,
    /// The reference cannot be joined to its base.
    CannotJoin,
    /// The reference leads to no local file.
    NotALocalFile,
}

/// The address under which the remote store shows the document at `path` below `root_url`.
pub open spec fn view_url(root_url: Seq<char>, path: Seq<char>) -> Seq<char> {
    "/view/"@ + root_url + "/"@ + path
}

/// The address under which the remote store serves the file `name` of the
/// document at `tim_path` below `root_url`.
pub open spec fn files_url(root_url: Seq<char>, tim_path: Seq<char>, name: Seq<char>) -> Seq<char> {
    "/files/"@ + root_url + "/"@ + tim_path + "/"@ + name
}

/// A source file whose document the project makes: the local path of the
/// file and the remote path of its document.
#[derive(Debug)]
pub struct KnownDocument {
    pub local_path: String,
    pub remote_path: String,
}

/// A `KnownDocument` as contracts see it.
pub struct KnownView {
    pub local_path: Seq<char>,
    pub remote_path: Seq<char>,
}

impl View for KnownDocument {
    type V = KnownView;

    open spec fn view(&self) -> KnownView {
        KnownView { local_path: self.local_path@, remote_path: self.remote_path@ }
    }
}

/// The views of a list of known documents.
pub open spec fn known_views(known: Seq<KnownDocument>) -> Seq<KnownView> {
    known.map_values(|k: KnownDocument| k@)
}

/// The remote path of the document that the file at `local_path` makes:
/// that of the first known document of that file, if there is one.
pub open spec fn known_remote_path(known: Seq<KnownView>, local_path: Seq<char>) -> Option<Seq<char>>
    decreases known.len(),
{
    if known.len() == 0 {
        None
    } else if known[0].local_path == local_path {
        Some(known[0].remote_path)
    } else {
        known_remote_path(known.drop_first(), local_path)
    }
}

/// The remote path of the document that the file at `local_path` makes, if
/// there is such a path and the project makes a document of the file.
pub open spec fn known_target(known: Seq<KnownView>, local_path: Option<Seq<char>>) -> Option<
    Seq<char>,
> {
    match local_path {
        Some(local) => known_remote_path(known, local),
        None => None,
    }
}

/// The suffix that marks a reference to a Markdown file.
pub open spec fn md_suffix() -> Seq<char> {
    ".md"@
}

/// Whether `s` ends with `suffix`.
pub open spec fn ends_with(s: Seq<char>, suffix: Seq<char>) -> bool {
    s.len() >= suffix.len() && occurs_at(s, suffix, s.len() - suffix.len())
}

/// What the target `url` of a link in the file at `file_path` turns out to be.
///
/// A target that is no relative reference is kept. A reference that starts
/// with `/` is resolved against the project directory, any other against the
/// file that holds the link. Where the reference leads to a file whose
/// document the project makes, the target is that document: its address
/// is the remote path of the document below the view of `root_url`. Where
/// it leads to another Markdown file, one whose resolved path ends in
/// `.md`, the target is a document at the place of that file in the
/// project: its address is the resolved address without the suffix and
/// without the address of the project directory, below the view of
/// `root_url`. Any other target is a local file.
pub open spec fn link_target(
    url: Seq<char>,
    project_dir: Seq<char>,
    file_path: Seq<char>,
    root_url: Seq<char>,
    known: Seq<KnownView>,
) -> Result<LinkTargetView, LinkError> {
    match directory_url_of(project_dir) {
        None => Err(LinkError::ProjectDirNotAbsolute),
        Some(project_url) => if !url_is_relative(url) {
            Ok(LinkTargetView::Keep)
        } else {
            let from_root = url.len() > 0 && url[0] == '/';
            let base = if from_root {
                Some(project_url)
            } else {
                file_url_of(file_path)
            };
            let reference = if from_root {
                url.skip(1)
            } else {
                url
            };
            match base {
                None => Err(LinkError::FilePathNotAbsolute),
                Some(base) => match joined_url(base, reference) {
                    None => Err(LinkError::CannotJoin),
                    Some(full) => match known_target(known, file_path_of_url(full)) {
                        Some(remote) => Ok(LinkTargetView::Document(view_url(root_url, remote))),
                        None => unlisted_target(full, project_url, root_url),
                    },
                },
            }
        },
    }
}

/// What the resolved address `full` of a link turns out to be where it
/// leads to no file whose document the project makes.
pub open spec fn unlisted_target(
    full: Seq<char>,
    project_url: Seq<char>,
    root_url: Seq<char>,
) -> Result<LinkTargetView, LinkError> {
    match path_of_url(full) {
        None => Err(LinkError::CannotJoin),
        Some(path) => if ends_with(path, md_suffix()) {
            match url_with_path(full, path.take(path.len() - md_suffix().len())) {
                None => Err(LinkError::CannotJoin),
                Some(stripped) => Ok(
                    LinkTargetView::Document(
                        view_url(root_url, text_without(stripped, project_url)),
                    ),
                ),
            }
        } else {
            match file_path_of_url(full) {
                None => Err(LinkError::NotALocalFile),
                Some(local) => Ok(LinkTargetView::Asset(local)),
            }
        },
    }
}

/// Looks up the remote path of the document that the file at `local_path` makes.
pub fn find_known<'a>(known: &'a Vec<KnownDocument>, local_path: &str) -> (r: Option<&'a String>)
    ensures
        match r {
            Some(remote) => known_remote_path(known_views(known@), local_path@) == Some(remote@),
            None => known_remote_path(known_views(known@), local_path@) is None,
        },
{
    let ghost kv = known_views(known@);
    let mut i: usize = 0;
    assert(kv.skip(0) == kv);
    while i < known.len()
        invariant
            i <= known.len(),
            kv == known_views(known@),
            known_remote_path(kv, local_path@) == known_remote_path(kv.skip(i as int), local_path@),
        decreases known.len() - i,
    {
        assert(kv.skip(i as int)[0] == known@[i as int]@);
        if same_text(known[i].local_path.as_str(), local_path) {
            return Some(&known[i].remote_path);
        }
        assert(kv.skip(i as int).drop_first() == kv.skip(i + 1));
        i += 1;
    }
    None
}

/// Writes the address under which the remote store shows a document.
pub fn make_view_url(root_url: &str, path: &str) -> (out: String)
    ensures
        out@ == view_url(root_url@, path@),
{
    let mut out = String::from_str("/view/");
    out.append(root_url);
    out.append("/");
    out.append(path);
    out
}

/// Writes the address under which the remote store serves a file of a document.
pub fn make_files_url(root_url: &str, tim_path: &str, name: &str) -> (out: String)
    ensures
        out@ == files_url(root_url@, tim_path@, name@),
{
    let mut out = String::from_str("/files/");
    out.append(root_url);
    out.append("/");
    out.append(tim_path);
    out.append("/");
    out.append(name);
    out
}

/// Decides what the target of a link turns out to be.
pub fn resolve_link(
    url: &str,
    project_dir: &str,
    file_path: &str,
    root_url: &str,
    known: &Vec<KnownDocument>,
) -> (r: Result<LinkTarget, LinkError>)
    ensures
        match r {
            Ok(target) => link_target(
                url@,
                project_dir@,
                file_path@,
                root_url@,
                known_views(known@),
            ) == Ok::<LinkTargetView, LinkError>(target@),
            Err(e) => link_target(url@, project_dir@, file_path@, root_url@, known_views(known@))
                == Err::<LinkTargetView, LinkError>(e),
        },
{
    let project_url = match directory_url(project_dir) {
        Some(u) => u,
        None => {
            return Err(LinkError::ProjectDirNotAbsolute);
        },
    };
    if !is_relative_reference(url) {
        return Ok(LinkTarget::Keep);
    }
    let chars = str_chars(url);
    let from_root = chars.len() > 0 && chars[0] == '/';
    let (base, reference) = if from_root {
        assert(chars@.subrange(1, chars.len() as int) == url@.skip(1));
        (Some(project_url.clone()), chars_string(&chars, 1, chars.len()))
    } else {
        assert(chars@.subrange(0, chars.len() as int) == url@);
        (file_url(file_path), chars_string(&chars, 0, chars.len()))
    };
    let base = match base {
        Some(b) => b,
        None => {
            return Err(LinkError::FilePathNotAbsolute);
        },
    };
    let full = match join_url(base.as_str(), reference.as_str()) {
        Some(u) => u,
        None => {
            return Err(LinkError::CannotJoin);
        },
    };
    let local = url_file_path(full.as_str());
    match &local {
        Some(l) => match find_known(known, l.as_str()) {
            Some(remote) => {
                return Ok(LinkTarget::Document(make_view_url(root_url, remote.as_str())));
            },
            None => {},
        },
        None => {},
    }
    let path = match url_path(full.as_str()) {
        Some(p) => p,
        None => {
            return Err(LinkError::CannotJoin);
        },
    };
    let path_chars = str_chars(path.as_str());
    let suffix = str_chars(".md");
    proof {
        reveal_strlit(".md");
    }
    if path_chars.len() >= suffix.len() && matches_at(
        &path_chars,
        &suffix,
        path_chars.len() - suffix.len(),
    ) {
        let bare = chars_string(&path_chars, 0, path_chars.len() - suffix.len());
        assert(bare@ == path@.take(path@.len() - md_suffix().len()));
        match set_url_path(full.as_str(), bare.as_str()) {
            None => Err(LinkError::CannotJoin),
            Some(stripped) => {
                let shown = remove_all(stripped.as_str(), project_url.as_str());
                Ok(LinkTarget::Document(make_view_url(root_url, shown.as_str())))
            },
        }
    } else {
        match local {
            None => Err(LinkError::NotALocalFile),
            Some(l) => Ok(LinkTarget::Asset(l)),
        }
    }
}

/// A link with what its target turned out to be, and, for a local file that
/// could be read, the file's bytes.
#[derive(Debug)]
pub struct PlannedLink {
    /// Where the target starts in the source, in bytes.
    pub start: usize,
    /// Where the target ends in the source, in bytes.
    pub end: usize,
    /// What the target turned out to be.
    pub target: LinkTarget,
    /// The bytes of the local file, if the target is one and it could be read.
    pub asset: Option<Vec<u8>>,
}

/// A `PlannedLink` as contracts see it.
pub struct PlannedView {
    pub start: int,
    pub end: int,
    pub target: LinkTargetView,
    pub asset: Option<Seq<u8>>,
}

impl View for PlannedLink {
    type V = PlannedView;

    open spec fn view(&self) -> PlannedView {
        PlannedView {
            start: self.start as int,
            end: self.end as int,
            target: self.target@,
            asset: match self.asset {
                Some(bytes) => Some(bytes@),
                None => None,
            },
        }
    }
}

/// The views of a list of planned links.
pub open spec fn planned_views(links: Seq<PlannedLink>) -> Seq<PlannedView> {
    links.map_values(|l: PlannedLink| l@)
}

/// The first `n` links with what their targets turn out to be, no file
/// read yet; or the error of the first of them that cannot be resolved.
pub open spec fn planned_links(
    links: Seq<LinkView>,
    project_dir: Seq<char>,
    file_path: Seq<char>,
    root_url: Seq<char>,
    known: Seq<KnownView>,
    n: int,
) -> Result<Seq<PlannedView>, LinkError>
    decreases n,
{
    if n <= 0 {
        Ok(Seq::empty())
    } else {
        match planned_links(links, project_dir, file_path, root_url, known, n - 1) {
            Err(e) => Err(e),
            Ok(before) => match link_target(
                links[n - 1].url,
                project_dir,
                file_path,
                root_url,
                known,
            ) {
                Err(e) => Err(e),
                Ok(target) => Ok(
                    before.push(
                        PlannedView {
                            start: links[n - 1].start,
                            end: links[n - 1].end,
                            target,
                            asset: None,
                        },
                    ),
                ),
            },
        }
    }
}

/// An error among the first links is the outcome for all of them.
pub proof fn lemma_planned_links_error_stays(
    links: Seq<LinkView>,
    project_dir: Seq<char>,
    file_path: Seq<char>,
    root_url: Seq<char>,
    known: Seq<KnownView>,
    k: int,
    n: int,
)
    requires
        k <= n,
        planned_links(links, project_dir, file_path, root_url, known, k) is Err,
    ensures
        planned_links(links, project_dir, file_path, root_url, known, n) == planned_links(
            links,
            project_dir,
            file_path,
            root_url,
            known,
            k,
        ),
    decreases n - k,
{
    if k < n {
        lemma_planned_links_error_stays(links, project_dir, file_path, root_url, known, k, n - 1);
    }
}

/// Decides for every link what its target turns out to be. The first link
/// that cannot be resolved ends the planning with its error.
pub fn plan_links(
    links: &Vec<DocumentLink>,
    project_dir: &str,
    file_path: &str,
    root_url: &str,
    known: &Vec<KnownDocument>,
) -> (r: Result<Vec<PlannedLink>, LinkError>)
    ensures
        match r {
            Ok(planned) => planned_links(
                link_views(links@),
                project_dir@,
                file_path@,
                root_url@,
                known_views(known@),
                links.len() as int,
            ) == Ok::<Seq<PlannedView>, LinkError>(planned_views(planned@)),
            Err(e) => planned_links(
                link_views(links@),
                project_dir@,
                file_path@,
                root_url@,
                known_views(known@),
                links.len() as int,
            ) == Err::<Seq<PlannedView>, LinkError>(e),
        },
{
    let ghost lv = link_views(links@);
    let ghost kv = known_views(known@);
    let mut planned: Vec<PlannedLink> = Vec::new();
    let mut i: usize = 0;
    assert(planned_views(planned@) =~= Seq::<PlannedView>::empty());
    while i < links.len()
        invariant
            i <= links.len(),
            lv == link_views(links@),
            kv == known_views(known@),
            planned_links(lv, project_dir@, file_path@, root_url@, kv, i as int) == Ok::<
                Seq<PlannedView>,
                LinkError,
            >(planned_views(planned@)),
        decreases links.len() - i,
    {
        assert(lv[i as int] == links@[i as int]@);
        match resolve_link(links[i].url.as_str(), project_dir, file_path, root_url, known) {
            Err(e) => {
                proof {
                    assert(planned_links(lv, project_dir@, file_path@, root_url@, kv, i + 1) == Err::<
                        Seq<PlannedView>,
                        LinkError,
                    >(e));
                    lemma_planned_links_error_stays(
                        lv,
                        project_dir@,
                        file_path@,
                        root_url@,
                        kv,
                        i + 1,
                        links.len() as int,
                    );
                }
                return Err(e);
            },
            Ok(target) => {
                let ghost before = planned_views(planned@);
                let ghost t = target@;
                planned.push(
                    PlannedLink { start: links[i].start, end: links[i].end, target, asset: None },
                );
                assert(planned_views(planned@) =~= before.push(
                    PlannedView {
                        start: lv[i as int].start,
                        end: lv[i as int].end,
                        target: t,
                        asset: None,
                    },
                ));
            },
        }
        i += 1;
    }
    Ok(planned)
}

/// What a planned link is replaced by: a document's address for a document,
/// the address of the uploaded file for a local file that could be read.
/// A link that is kept, and a file that could not be read, have no replacement.
pub open spec fn link_replacement(
    link: PlannedView,
    root_url: Seq<char>,
    tim_path: Seq<char>,
) -> Option<ReplacementView> {
    match link.target {
        LinkTargetView::Keep => None,
        LinkTargetView::Document(address) => Some(
            ReplacementView {
                start: link.start,
                end: link.end,
                text: vstd::utf8::encode_utf8(address),
            },
        ),
        LinkTargetView::Asset(local) => match link.asset {
            Some(bytes) => Some(
                ReplacementView {
                    start: link.start,
                    end: link.end,
                    text: vstd::utf8::encode_utf8(
                        files_url(root_url, tim_path, hashed_filename(local, bytes)),
                    ),
                },
            ),
            None => None,
        },
    }
}

/// The replacements of the first `n` planned links, in their order.
pub open spec fn link_replacements(
    links: Seq<PlannedView>,
    root_url: Seq<char>,
    tim_path: Seq<char>,
    n: int,
) -> Seq<ReplacementView>
    decreases n,
{
    if n <= 0 {
        Seq::empty()
    } else {
        match link_replacement(links[n - 1], root_url, tim_path) {
            Some(r) => link_replacements(links, root_url, tim_path, n - 1).push(r),
            None => link_replacements(links, root_url, tim_path, n - 1),
        }
    }
}

/// The files to upload for the first `n` planned links: every local file that
/// could be read, under the name that its content gives it.
pub open spec fn link_uploads(links: Seq<PlannedView>, n: int) -> Map<Seq<char>, Seq<char>>
    decreases n,
{
    if n <= 0 {
        Map::empty()
    } else {
        match (links[n - 1].target, links[n - 1].asset) {
            (LinkTargetView::Asset(local), Some(bytes)) => link_uploads(links, n - 1).insert(
                local,
                hashed_filename(local, bytes),
            ),
            _ => link_uploads(links, n - 1),
        }
    }
}

/// Rewrites the relative link targets of a rendered document and lists the
/// local files to upload with it.
///
/// The replacements are put into the order of their starts, and the
/// targets are rewritten in one pass from left to right. There is no result
/// where the links do not lie within the document one after the other, or
/// where the rewritten bytes are no text.
pub fn resolve_relative_urls(
    contents: &str,
    planned: &Vec<PlannedLink>,
    root_url: &str,
    tim_path: &str,
) -> (r: Option<(String, UploadFiles)>)
    ensures
        ({
            let source = vstd::utf8::encode_utf8(contents@);
            let found = link_replacements(
                planned_views(planned@),
                root_url@,
                tim_path@,
                planned.len() as int,
            );
            let reps = sorted_by_start(found, found.len() as int);
            match r {
                Some((text, files)) => ordered(reps, source.len() as int)
                    && vstd::utf8::encode_utf8(text@) == rewritten(source, reps) && files@
                    == link_uploads(planned_views(planned@), planned.len() as int),
                None => !ordered(reps, source.len() as int) || !vstd::utf8::valid_utf8(
                    rewritten(source, reps),
                ),
            }
        }),
{
    let ghost pv = planned_views(planned@);
    let source = contents.as_bytes_vec();
    let mut reps: Vec<Replacement> = Vec::new();
    let mut files = UploadFiles::new();
    let mut i: usize = 0;
    assert(replacement_views(reps@) =~= link_replacements(pv, root_url@, tim_path@, 0));
    while i < planned.len()
        invariant
            i <= planned.len(),
            pv == planned_views(planned@),
            replacement_views(reps@) == link_replacements(pv, root_url@, tim_path@, i as int),
            files@ == link_uploads(pv, i as int),
        decreases planned.len() - i,
    {
        let link = &planned[i];
        assert(pv[i as int] == link@);
        let ghost before = replacement_views(reps@);
        match &link.target {
            LinkTarget::Keep => {},
            LinkTarget::Document(address) => {
                let text = address.as_str().as_bytes_vec();
                reps.push(Replacement { start: link.start, end: link.end, text });
                assert(replacement_views(reps@) =~= before.push(
                    link_replacement(pv[i as int], root_url@, tim_path@)->Some_0,
                ));
            },
            LinkTarget::Asset(local) => {
                match &link.asset {
                    Some(bytes) => {
                        let name = generate_hashed_filename(local.as_str(), bytes.as_slice());
                        let address = make_files_url(root_url, tim_path, name.as_str());
                        files.insert(local.clone(), name);
                        let text = address.as_str().as_bytes_vec();
                        reps.push(Replacement { start: link.start, end: link.end, text });
                        assert(replacement_views(reps@) =~= before.push(
                            link_replacement(pv[i as int], root_url@, tim_path@)->Some_0,
                        ));
                    },
                    None => {},
                }
            },
        }
        i += 1;
    }
    let reps = sort_by_start(reps);
    if !ranges_ordered(&reps, source.len()) {
        return None;
    }
    let out = rewrite_ranges(&source, &reps);
    match string_from_utf8(out) {
        Some(text) => Some((text, files)),
        None => None,
    }
}

} // verus!
