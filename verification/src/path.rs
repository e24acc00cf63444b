//! Local paths as text: segments separated by `/`.

use vstd::prelude::*;
use std::path::Path;
use path_absolutize::Absolutize;
use crate::fingerprint::{fingerprint_bytes, fingerprint_of_bytes};
use crate::text::{
    after_last, char_pos, chars_string, find_char, last_pos, lemma_last_pos, same_text, skip_chars,
    skip_string, str_chars, take_string,
};
use crate::tree::{head_segment, lemma_slash_pos_is, slash_pos, tail_path};

verus! {

/// The segments of a path: the runs between its `/`.
pub open spec fn split_segments(s: Seq<char>) -> Seq<Seq<char>>
    decreases s.len(),
{
    if 0 <= slash_pos(s) < s.len() {
        seq![head_segment(s)] + split_segments(tail_path(s))
    } else {
        seq![s]
    }
}

/// Whether a path starts at the root.
pub open spec fn is_absolute(s: Seq<char>) -> bool {
    s.len() > 0 && s[0] == '/'
}

/// Whether a segment names something: it is neither empty nor `.`.
pub open spec fn is_component(seg: Seq<char>) -> bool {
    seg.len() > 0 && seg != seq!['.']
}

/// The components of a path: its segments but the empty ones and `.`.
pub open spec fn components(s: Seq<char>) -> Seq<Seq<char>> {
    split_segments(s).filter(|seg: Seq<char>| is_component(seg))
}

/// One step of resolving a path: `..` takes the last component away, if
/// there is one; any other component is added.
pub open spec fn push_component(stack: Seq<Seq<char>>, seg: Seq<char>) -> Seq<Seq<char>> {
    if seg == seq!['.', '.'] {
        if stack.len() > 0 {
            stack.drop_last()
        } else {
            stack
        }
    } else {
        stack.push(seg)
    }
}

/// The components that are left once every `..` has taken away the
/// component before it.
pub open spec fn resolve_components(comps: Seq<Seq<char>>) -> Seq<Seq<char>>
    decreases comps.len(),
{
    if comps.len() == 0 {
        comps
    } else {
        push_component(resolve_components(comps.drop_last()), comps.last())
    }
}

/// The components joined by `/`.
pub open spec fn join_relative(comps: Seq<Seq<char>>) -> Seq<char>
    decreases comps.len(),
{
    if comps.len() == 0 {
        Seq::empty()
    } else if comps.len() == 1 {
        comps[0]
    } else {
        join_relative(comps.drop_last()) + seq!['/'] + comps.last()
    }
}

/// The path of the components, from the root if `absolute`.
pub open spec fn join_components(absolute: bool, comps: Seq<Seq<char>>) -> Seq<char> {
    if absolute {
        seq!['/'] + join_relative(comps)
    } else {
        join_relative(comps)
    }
}

/// A path without `.`, `..` and empty segments.
pub open spec fn normalized_path(s: Seq<char>) -> Seq<char> {
    join_components(is_absolute(s), resolve_components(components(s)))
}

/// The views of a list of strings.
pub open spec fn string_views(v: Seq<String>) -> Seq<Seq<char>> {
    v.map_values(|s: String| s@)
}

/// Splits a path into its segments.
pub fn path_segments(path: &str) -> (out: Vec<String>)
    ensures
        string_views(out@) == split_segments(path@),
{
    let v = str_chars(path);
    let mut out: Vec<String> = Vec::new();
    let mut from: usize = 0;
    let mut i: usize = 0;
    assert(v@.skip(0) == v@);
    while i < v.len()
        invariant
            from <= i <= v.len(),
            forall|j: int| from <= j < i ==> v@[j] != '/',
            split_segments(v@) == string_views(out@) + split_segments(v@.skip(from as int)),
        decreases v.len() - i,
    {
        if v[i] == '/' {
            let ghost rest = v@.skip(from as int);
            proof {
                lemma_slash_pos_is(rest, i - from);
                assert(head_segment(rest) =~= v@.subrange(from as int, i as int));
                assert(tail_path(rest) =~= v@.skip(i + 1));
            }
            let seg = chars_string(&v, from, i);
            let ghost before = string_views(out@);
            out.push(seg);
            assert(string_views(out@) =~= before.push(v@.subrange(from as int, i as int)));
            from = i + 1;
        }
        i += 1;
    }
    let ghost rest = v@.skip(from as int);
    proof {
        lemma_slash_pos_is(rest, rest.len() as int);
        assert(rest =~= v@.subrange(from as int, v.len() as int));
    }
    let seg = chars_string(&v, from, v.len());
    let ghost before = string_views(out@);
    out.push(seg);
    assert(string_views(out@) =~= before.push(rest));
    out
}

/// Joins components by `/`, from the root if `absolute`.
pub fn join_path_components(absolute: bool, comps: &Vec<String>) -> (out: String)
    ensures
        out@ == join_components(absolute, string_views(comps@)),
{
    let ghost cs = string_views(comps@);
    let mut out = String::new();
    proof {
        reveal_strlit("/");
        assert("/"@ =~= seq!['/']);
    }
    let mut i: usize = 0;
    while i < comps.len()
        invariant
            i <= comps.len(),
            cs == string_views(comps@),
            "/"@ == seq!['/'],
            out@ == join_relative(cs.take(i as int)),
        decreases comps.len() - i,
    {
        proof {
            assert(cs.take(i + 1).drop_last() == cs.take(i as int));
            assert(cs.take(i + 1).last() == comps@[i as int]@);
            if i == 0 {
                assert(cs.take(1)[0] == comps@[0]@);
                assert(Seq::<char>::empty() + comps@[0]@ =~= comps@[0]@);
            }
        }
        if i > 0 {
            out.append("/");
        }
        out.append(comps[i].as_str());
        i += 1;
    }
    assert(cs.take(comps.len() as int) == cs);
    if absolute {
        let mut rooted = String::from_str("/");
        rooted.append(out.as_str());
        rooted
    } else {
        out
    }
}

/// Whether a path starts at the root.
pub fn path_is_absolute(path: &str) -> (r: bool)
    ensures
        r == is_absolute(path@),
{
    let v = str_chars(path);
    v.len() > 0 && v[0] == '/'
}

/// The components `comps` resolved on top of the components `stack`.
pub open spec fn resolve_onto(stack: Seq<Seq<char>>, comps: Seq<Seq<char>>) -> Seq<Seq<char>>
    decreases comps.len(),
{
    if comps.len() == 0 {
        stack
    } else {
        push_component(resolve_onto(stack, comps.drop_last()), comps.last())
    }
}

/// Resolving components from nothing is resolving them on top of nothing.
pub proof fn lemma_resolve_onto_empty(comps: Seq<Seq<char>>)
    ensures
        resolve_onto(Seq::empty(), comps) == resolve_components(comps),
    decreases comps.len(),
{
    if comps.len() > 0 {
        lemma_resolve_onto_empty(comps.drop_last());
    }
}

/// Resolves the components of `path` on top of the components `stack`.
pub fn resolve_path_onto(stack: Vec<String>, path: &str) -> (out: Vec<String>)
    ensures
        string_views(out@) == resolve_onto(string_views(stack@), components(path@)),
{
    let segs = path_segments(path);
    let ghost ss = string_views(segs@);
    let ghost base = string_views(stack@);
    let ghost keep = |seg: Seq<char>| is_component(seg);
    let mut out = stack;
    let mut i: usize = 0;
    assert(ss.take(0).filter(keep) =~= Seq::<Seq<char>>::empty()) by {
        reveal(Seq::filter);
    }
    while i < segs.len()
        invariant
            i <= segs.len(),
            ss == string_views(segs@),
            ss == split_segments(path@),
            keep == |seg: Seq<char>| is_component(seg),
            string_views(out@) == resolve_onto(base, ss.take(i as int).filter(keep)),
        decreases segs.len() - i,
    {
        let ghost seg = ss[i as int];
        let ghost before = ss.take(i as int).filter(keep);
        proof {
            reveal(Seq::filter);
            assert(ss.take(i + 1).drop_last() == ss.take(i as int));
            assert(ss.take(i + 1).last() == seg);
            assert(seg == segs@[i as int]@);
            if is_component(seg) {
                assert(ss.take(i + 1).filter(keep) == before.push(seg));
                assert(before.push(seg).drop_last() == before);
            } else {
                assert(ss.take(i + 1).filter(keep) == before);
            }
        }
        let chars = str_chars(segs[i].as_str());
        let is_dot = chars.len() == 1 && chars[0] == '.';
        let is_dots = chars.len() == 2 && chars[0] == '.' && chars[1] == '.';
        proof {
            assert(is_dot == (seg =~= seq!['.']));
            assert(is_dots == (seg =~= seq!['.', '.']));
        }
        if chars.len() == 0 || is_dot {
        } else if is_dots {
            let ghost old_out = string_views(out@);
            if out.len() > 0 {
                let _ = out.pop();
                assert(string_views(out@) =~= old_out.drop_last());
            }
        } else {
            let ghost old_out = string_views(out@);
            out.push(segs[i].clone());
            assert(string_views(out@) =~= old_out.push(seg));
        }
        i += 1;
    }
    assert(ss.take(segs.len() as int) == ss);
    out
}

/// The components of a path, each `..` resolved against the component before it.
pub fn resolved_components(path: &str) -> (out: Vec<String>)
    ensures
        string_views(out@) == resolve_components(components(path@)),
{
    let stack: Vec<String> = Vec::new();
    assert(string_views(stack@) =~= Seq::<Seq<char>>::empty());
    proof {
        lemma_resolve_onto_empty(components(path@));
    }
    resolve_path_onto(stack, path)
}

/// Normalizing a path: `.` and empty segments go, and each `..` goes together
/// with the component before it.
pub trait NormalizeExtension: View<V = Seq<char>> {
    /// Normalizes the path.
    fn normalize(&self) -> (out: String)
        ensures
            out@ == normalized_path(self@),
    ;
}

impl NormalizeExtension for String {
    fn normalize(&self) -> (out: String) {
        let comps = resolved_components(self.as_str());
        join_path_components(path_is_absolute(self.as_str()), &comps)
    }
}

/// The name of the file that a path leads to: what follows its last `/`.
pub open spec fn file_name_of(path: Seq<char>) -> Seq<char> {
    path.skip(last_pos(path, '/') + 1)
}

/// The full extension of a file name: what follows its first `.` that is
/// not its first character. `..` has none.
pub open spec fn full_extension_of(name: Seq<char>) -> Option<Seq<char>> {
    let dot = char_pos(name, '.', 1);
    if name == seq!['.', '.'] || dot >= name.len() {
        None
    } else {
        Some(name.skip(dot + 1))
    }
}

/// Where the extension of a file name starts: at its last `.`, unless that
/// is its first character. The name's length if it has no extension.
pub open spec fn stem_len(name: Seq<char>) -> int {
    let dot = last_pos(name, '.');
    if name == seq!['.', '.'] || dot <= 0 {
        name.len() as int
    } else {
        dot
    }
}

/// The extension of a file name: what follows its last `.`, unless that is
/// its first character.
pub open spec fn extension_of(name: Seq<char>) -> Option<Seq<char>> {
    if stem_len(name) < name.len() {
        Some(name.skip(stem_len(name) + 1))
    } else {
        None
    }
}

/// The name of a file without its extension.
pub open spec fn file_stem_of(path: Seq<char>) -> Seq<char> {
    file_name_of(path).take(stem_len(file_name_of(path)))
}

/// A path without the extension of its file.
pub open spec fn without_extension(path: Seq<char>) -> Seq<char> {
    path.take(last_pos(path, '/') + 1 + stem_len(file_name_of(path)))
}

/// The name of the file that a path leads to.
pub fn file_name(path: &str) -> (out: String)
    ensures
        out@ == file_name_of(path@),
{
    let v = str_chars(path);
    let start = after_last(&v, '/');
    skip_string(&v, start)
}

/// Whether a name is `..`.
fn is_dot_dot(name: &Vec<char>) -> (r: bool)
    ensures
        r == (name@ == seq!['.', '.']),
{
    let r = name.len() == 2 && name[0] == '.' && name[1] == '.';
    assert(r == (name@ =~= seq!['.', '.']));
    r
}

/// Where the extension of a file name starts.
fn stem_length(name: &Vec<char>) -> (r: usize)
    ensures
        r == stem_len(name@),
        r <= name.len(),
{
    let after = after_last(name, '.');
    proof {
        lemma_last_pos(name@, '.');
    }
    if is_dot_dot(name) || after <= 1 {
        name.len()
    } else {
        after - 1
    }
}

/// The full extension of the file that a path leads to.
pub fn full_extension(path: &str) -> (r: Option<String>)
    ensures
        match r {
            Some(ext) => full_extension_of(file_name_of(path@)) == Some(ext@),
            None => full_extension_of(file_name_of(path@)) is None,
        },
{
    let v = str_chars(path);
    let start = after_last(&v, '/');
    let name = skip_chars(&v, start);
    if name.len() < 1 {
        return None;
    }
    let dot = find_char(&name, '.', 1);
    if is_dot_dot(&name) || dot >= name.len() {
        None
    } else {
        Some(skip_string(&name, dot + 1))
    }
}

/// The extension of the file that a path leads to.
pub fn extension(path: &str) -> (r: Option<String>)
    ensures
        match r {
            Some(ext) => extension_of(file_name_of(path@)) == Some(ext@),
            None => extension_of(file_name_of(path@)) is None,
        },
{
    let v = str_chars(path);
    let start = after_last(&v, '/');
    let name = skip_chars(&v, start);
    let stem = stem_length(&name);
    if stem < name.len() {
        Some(skip_string(&name, stem + 1))
    } else {
        None
    }
}

/// The name of the file that a path leads to, without its extension.
pub fn file_stem(path: &str) -> (out: String)
    ensures
        out@ == file_stem_of(path@),
{
    let v = str_chars(path);
    let start = after_last(&v, '/');
    let name = skip_chars(&v, start);
    let stem = stem_length(&name);
    take_string(&name, stem)
}

/// Whether a file or directory name marks it as hidden: it starts with `.` or `_`.
pub fn is_hidden(file_name: &str) -> (r: bool)
    ensures
        r == (file_name@.len() > 0 && (file_name@[0] == '.' || file_name@[0] == '_')),
{
    let v = str_chars(file_name);
    v.len() > 0 && (v[0] == '.' || v[0] == '_')
}

/// Whether a path leads to a Markdown file: its extension is `md`.
pub fn is_markdown(path: &str) -> (r: bool)
    ensures
        r == (extension_of(file_name_of(path@)) == Some("md"@)),
{
    match extension(path) {
        Some(ext) => same_text(ext.as_str(), "md"),
        None => false,
    }
}

/// Setting the extension of a path. Only the empty extension is offered:
/// it takes the extension away.
pub trait WithSetExtension: View<V = Seq<char>> + Sized {
    /// The path without the extension of its file.
    fn with_extension_removed(self) -> (out: String)
        ensures
            out@ == without_extension(self@),
    ;
}

impl WithSetExtension for String {
    fn with_extension_removed(self) -> (out: String) {
        let v = str_chars(self.as_str());
        let start = after_last(&v, '/');
        let name = skip_chars(&v, start);
        let stem = stem_length(&name);
        take_string(&v, start + stem)
    }
}

/// The full extension of a path's file.
pub trait FullExtension: View<V = Seq<char>> {
    /// The full extension of the file: all that follows the first `.` of its name.
    fn full_extension(&self) -> (r: Option<String>)
        ensures
            match r {
                Some(ext) => full_extension_of(file_name_of(self@)) == Some(ext@),
                None => full_extension_of(file_name_of(self@)) is None,
            },
    ;
}

impl FullExtension for String {
    fn full_extension(&self) -> (r: Option<String>) {
        full_extension(self.as_str())
    }
}

/// The name that a file gets in the remote store: the fingerprint of its
/// bytes, and its full extension behind a `.` if it has one.
pub open spec fn hashed_filename(path: Seq<char>, bytes: Seq<u8>) -> Seq<char> {
    match full_extension_of(file_name_of(path)) {
        Some(ext) => fingerprint_of_bytes(bytes) + seq!['.'] + ext,
        None => fingerprint_of_bytes(bytes),
    }
}

/// Names a file by its content: the name depends on the file's bytes and
/// on the extension of its path, and on nothing else.
pub fn generate_hashed_filename(target_file_path: &str, contents: &[u8]) -> (out: String)
    ensures
        out@ == hashed_filename(target_file_path@, contents@),
{
    let mut out = fingerprint_bytes(contents);
    match full_extension(target_file_path) {
        Some(ext) => {
            proof {
                reveal_strlit(".");
                assert("."@ =~= seq!['.']);
            }
            out.append(".");
            out.append(ext.as_str());
        },
        None => {},
    }
    out
}

/// Files with the same bytes and the same extension get
/// the same remote name, wherever they lie and whichever document refers to them.
pub proof fn lemma_same_content_same_name(
    path_a: Seq<char>,
    path_b: Seq<char>,
    bytes: Seq<u8>,
)
    requires
        full_extension_of(file_name_of(path_a)) == full_extension_of(file_name_of(path_b)),
    ensures
        hashed_filename(path_a, bytes) == hashed_filename(path_b, bytes),
{
}

/// A path relative to `base`: the components of the path that follow those
/// of `base`. There is none where the path does not lie below `base`. In
/// both paths `.` and empty segments count for nothing, and `..` takes the
/// component before it away.
pub open spec fn relative_to(path: Seq<char>, base: Seq<char>) -> Option<Seq<char>> {
    let p = resolve_components(components(path));
    let b = resolve_components(components(base));
    if is_absolute(path) == is_absolute(base) && b.len() <= p.len() && p.take(b.len() as int) == b {
        Some(join_relative(p.skip(b.len() as int)))
    } else {
        None
    }
}

/// What relating `path` to `base` may give. Two absolute paths are
/// related as they stand. A path that is not absolute is first made
/// absolute from the directory that the process works in, so the outcome is
/// that of relating some pair of paths, in which an absolute path stands
/// for itself; there is none where that directory cannot be had.
pub open spec fn relativized(path: Seq<char>, base: Seq<char>, r: Option<Seq<char>>) -> bool {
    if is_absolute(path) && is_absolute(base) {
        r == relative_to(path, base)
    } else {
        r matches Some(rel) ==> exists|a: Seq<char>, b: Seq<char>|
            (is_absolute(path) ==> a == path) && (is_absolute(base) ==> b == base)
                && #[trigger] relative_to(a, b) == Some(rel)
    }
}

/// `path_absolutize::Absolutize::absolutize` on a path: the path made
/// absolute from the directory that the process works in, if that
/// directory can be had. Nothing is stated of the result.
#[verifier::external_body]
fn absolutize(path: &str) -> (r: Option<String>) {
    Path::new(path).absolutize().ok().map(|p| p.to_string_lossy().into_owned())
}

/// The part of `path` that lies below `base`, if `path` lies below it.
pub fn strip_base(path: &str, base: &str) -> (r: Option<String>)
    ensures
        match r {
            Some(rel) => relative_to(path@, base@) == Some(rel@),
            None => relative_to(path@, base@) is None,
        },
{
    let p = resolved_components(path);
    let b = resolved_components(base);
    let ghost ps = string_views(p@);
    let ghost bs = string_views(b@);
    if path_is_absolute(path) != path_is_absolute(base) || b.len() > p.len() {
        assert(relative_to(path@, base@) is None);
        return None;
    }
    let mut i: usize = 0;
    while i < b.len()
        invariant
            i <= b.len() <= p.len(),
            ps == string_views(p@),
            bs == string_views(b@),
            ps == resolve_components(components(path@)),
            bs == resolve_components(components(base@)),
            is_absolute(path@) == is_absolute(base@),
            ps.take(i as int) == bs.take(i as int),
        decreases b.len() - i,
    {
        assert(ps[i as int] == p@[i as int]@);
        assert(bs[i as int] == b@[i as int]@);
        if !same_text(p[i].as_str(), b[i].as_str()) {
            assert(ps.take(b.len() as int)[i as int] == ps[i as int]);
            assert(ps.take(b.len() as int) != bs);
            assert(relative_to(path@, base@) is None);
            return None;
        }
        assert(ps.take(i + 1) == ps.take(i as int).push(ps[i as int]));
        assert(bs.take(i + 1) == bs.take(i as int).push(bs[i as int]));
        i += 1;
    }
    assert(bs.take(b.len() as int) == bs);
    let mut rest: Vec<String> = Vec::new();
    let mut k: usize = b.len();
    while k < p.len()
        invariant
            b.len() <= k <= p.len(),
            ps == string_views(p@),
            string_views(rest@) == ps.subrange(b.len() as int, k as int),
        decreases p.len() - k,
    {
        let ghost before = string_views(rest@);
        rest.push(p[k].clone());
        assert(string_views(rest@) =~= before.push(ps[k as int]));
        assert(ps.subrange(b.len() as int, k + 1) =~= ps.subrange(b.len() as int, k as int).push(
            ps[k as int],
        ));
        k += 1;
    }
    assert(ps.subrange(b.len() as int, p.len() as int) =~= ps.skip(b.len() as int));
    assert(ps.take(b.len() as int) == bs);
    let out = join_path_components(false, &rest);
    assert(relative_to(path@, base@) == Some(out@));
    Some(out)
}

/// Relating a path to a directory above it.
pub trait RelativizeExtension: View<V = Seq<char>> {
    /// The part of this path that lies below `path`, if this path lies
    /// below it. A path that is not absolute is first made absolute from
    /// the directory that the process works in.
    fn relativize(&self, path: &str) -> (r: Option<String>)
        ensures
            relativized(
                self@,
                path@,
                match r {
                    Some(rel) => Some(rel@),
                    None => None,
                },
            ),
    ;
}

impl RelativizeExtension for String {
    fn relativize(&self, path: &str) -> (r: Option<String>) {
        let this = if path_is_absolute(self.as_str()) {
            Some(self.clone())
        } else {
            absolutize(self.as_str())
        };
        let base = if path_is_absolute(path) {
            Some(String::from_str(path))
        } else {
            absolutize(path)
        };
        match (this, base) {
            (Some(a), Some(b)) => {
                let r = strip_base(a.as_str(), b.as_str());
                proof {
                    if r is Some {
                        assert(relative_to(a@, b@) == Some(r->0@));
                    }
                }
                r
            },
            _ => None,
        }
    }
}

} // verus!
