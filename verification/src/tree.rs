//! The path tree: from a flat list of remote paths to an ordered,
//! conflict-checked sequence of folder and document creations.

use vstd::prelude::*;
use crate::text::{chars_string, same_text, str_chars};
use crate::tim_document::{document_views, DocumentView, TIMDocument};

verus! {

/// Kind of an item in the remote store.
#[derive(Clone, Copy, Debug, PartialEq, Eq, Structural)]
pub enum ItemType {
    Folder,
    Document,
}

/// Position of the first `/` in `s`, or the length of `s` if there is none.
pub open spec fn slash_pos(s: Seq<char>) -> int
    decreases s.len(),
{
    if s.len() == 0 {
        0
    } else if s[0] == '/' {
        0
    } else {
        1 + slash_pos(s.drop_first())
    }
}

/// The segment of `s` before its first `/` (all of `s` if it has none).
pub open spec fn head_segment(s: Seq<char>) -> Seq<char> {
    s.take(slash_pos(s))
}

/// What follows the first `/` of `s` (empty if it has none).
pub open spec fn tail_path(s: Seq<char>) -> Seq<char> {
    if slash_pos(s) < s.len() {
        s.skip(slash_pos(s) + 1)
    } else {
        Seq::empty()
    }
}

/// `slash_pos` is the least position that holds a `/`.
pub proof fn lemma_slash_pos(s: Seq<char>)
    ensures
        0 <= slash_pos(s) <= s.len(),
        slash_pos(s) < s.len() ==> s[slash_pos(s)] == '/',
        forall|i: int| 0 <= i < slash_pos(s) ==> s[i] != '/',
    decreases s.len(),
{
    if s.len() > 0 && s[0] != '/' {
        let t = s.drop_first();
        lemma_slash_pos(t);
        assert forall|i: int| 0 <= i < slash_pos(s) implies s[i] != '/' by {
            if i > 0 {
                assert(s[i] == t[i - 1]);
            }
        }
    }
}

/// A position that holds the first `/` is `slash_pos`.
pub proof fn lemma_slash_pos_is(s: Seq<char>, k: int)
    requires
        0 <= k <= s.len(),
        k < s.len() ==> s[k] == '/',
        forall|i: int| 0 <= i < k ==> s[i] != '/',
    ensures
        slash_pos(s) == k,
{
    lemma_slash_pos(s);
    if slash_pos(s) < k {
        assert(s[slash_pos(s)] != '/');
    }
}

/// Splits a path at its first `/`.
pub fn split_path(path: &str) -> (r: (String, String))
    ensures
        r.0@ == head_segment(path@),
        r.1@ == tail_path(path@),
{
    let v = str_chars(path);
    let mut i: usize = 0;
    while i < v.len() && v[i] != '/'
        invariant
            i <= v.len(),
            forall|j: int| 0 <= j < i ==> v@[j] != '/',
        decreases v.len() - i,
    {
        i += 1;
    }
    proof {
        lemma_slash_pos_is(v@, i as int);
    }
    let head = chars_string(&v, 0, i);
    if i < v.len() {
        let tail = chars_string(&v, i + 1, v.len());
        (head, tail)
    } else {
        (head, String::new())
    }
}


/// Why a synchronization cannot go on.
#[derive(Debug)]
pub enum SyncError {
    /// The synchronization root does not exist in the remote store.
    SyncTargetDoesNotExist(String),
    /// The synchronization root exists but is not a folder.
    SyncTargetNotAFolder(String),
    /// Several documents want the same path.
    ItemNameConflict(String),
    /// A document and a folder want the same path.
    ItemTypeConflict(String),
    /// An item that must be a document is of another kind.
    ItemIsNotADocument(String, String),
}

/// A `SyncError` as contracts see it.
pub enum SyncErrorView {
    SyncTargetDoesNotExist(Seq<char>),
    SyncTargetNotAFolder(Seq<char>),
    ItemNameConflict(Seq<char>),
    ItemTypeConflict(Seq<char>),
    ItemIsNotADocument(Seq<char>, Seq<char>),
}

impl View for SyncError {
    type V = SyncErrorView;

    open spec fn view(&self) -> SyncErrorView {
        match self {
            SyncError::SyncTargetDoesNotExist(p) => SyncErrorView::SyncTargetDoesNotExist(p@),
            SyncError::SyncTargetNotAFolder(p) => SyncErrorView::SyncTargetNotAFolder(p@),
            SyncError::ItemNameConflict(p) => SyncErrorView::ItemNameConflict(p@),
            SyncError::ItemTypeConflict(p) => SyncErrorView::ItemTypeConflict(p@),
            SyncError::ItemIsNotADocument(p, k) => SyncErrorView::ItemIsNotADocument(p@, k@),
        }
    }
}

/// What a `SyncError` says.
pub open spec fn sync_error_message(e: SyncErrorView) -> Seq<char> {
    match e {
        SyncErrorView::SyncTargetDoesNotExist(p) => "The sync target path "@ + p
            + " does not exist in TIM. Create the folder first in TIM and set appropriate permissions before syncing files."@,
        SyncErrorView::SyncTargetNotAFolder(p) => "The sync target path "@ + p
            + " is not a folder in TIM. The target path must be a folder for sync to work."@,
        SyncErrorView::ItemNameConflict(p) => "Multiple documents found for the same TIM path '"@
            + p + "'. Make sure there are no duplicate paths in the project."@,
        SyncErrorView::ItemTypeConflict(p) => "There is a document and a folder with the same path '"@
            + p
            + "'. TIM requires that all items (folders, documents) have a unique path."@,
        SyncErrorView::ItemIsNotADocument(p, k) => "The item "@ + p + " is not a document, but a "@
            + k,
    }
}

impl SyncError {
    /// The error in words, with the path that it is about.
    pub fn message(&self) -> (out: String)
        ensures
            out@ == sync_error_message(self@),
    {
        match self {
            SyncError::SyncTargetDoesNotExist(p) => {
                let mut out = String::from_str("The sync target path ");
                out.append(p.as_str());
                out.append(
                    " does not exist in TIM. Create the folder first in TIM and set appropriate permissions before syncing files.",
                );
                out
            },
            SyncError::SyncTargetNotAFolder(p) => {
                let mut out = String::from_str("The sync target path ");
                out.append(p.as_str());
                out.append(
                    " is not a folder in TIM. The target path must be a folder for sync to work.",
                );
                out
            },
            SyncError::ItemNameConflict(p) => {
                let mut out = String::from_str("Multiple documents found for the same TIM path '");
                out.append(p.as_str());
                out.append("'. Make sure there are no duplicate paths in the project.");
                out
            },
            SyncError::ItemTypeConflict(p) => {
                let mut out = String::from_str(
                    "There is a document and a folder with the same path '",
                );
                out.append(p.as_str());
                out.append(
                    "'. TIM requires that all items (folders, documents) have a unique path.",
                );
                out
            },
            SyncError::ItemIsNotADocument(p, k) => {
                let mut out = String::from_str("The item ");
                out.append(p.as_str());
                out.append(" is not a document, but a ");
                out.append(k.as_str());
                out
            },
        }
    }
}

/// A path in mid-resolution: the segment of the current level, what is left
/// below it, and the document that the path belongs to, as an index into the
/// list of documents.
#[derive(Debug)]
pub struct ItemEntry {
    /// The part of the path before the first `/`.
    pub path_base: String,
    /// The part of the path after the first `/`.
    pub path_rest: String,
    /// Index of the document in the list of documents.
    pub doc: usize,
}

/// An `ItemEntry` as contracts see it.
pub struct EntryView {
    pub base: Seq<char>,
    pub rest: Seq<char>,
    pub doc: int,
}

impl View for ItemEntry {
    type V = EntryView;

    open spec fn view(&self) -> EntryView {
        EntryView { base: self.path_base@, rest: self.path_rest@, doc: self.doc as int }
    }
}

impl ItemEntry {
    /// Whether the entry is a document of the current level: nothing is left
    /// below its segment.
    pub fn is_document_path(&self) -> (r: bool)
        ensures
            r == (self@.rest.len() == 0),
    {
        self.path_rest.as_str().is_empty()
    }

    /// A copy of the entry.
    pub fn duplicate(&self) -> (e: ItemEntry)
        ensures
            e@ == self@,
    {
        ItemEntry {
            path_base: self.path_base.clone(),
            path_rest: self.path_rest.clone(),
            doc: self.doc,
        }
    }

    /// The entry one level down: its rest is split at the first `/`.
    pub fn descend(&self) -> (e: ItemEntry)
        ensures
            e@ == split_entry(self@),
    {
        let (base, rest) = split_path(self.path_rest.as_str());
        ItemEntry { path_base: base, path_rest: rest, doc: self.doc }
    }
}

/// The views of a list of entries.
pub open spec fn entry_views(es: Seq<ItemEntry>) -> Seq<EntryView> {
    es.map_values(|e: ItemEntry| e@)
}

/// An entry after its rest has been split at the first `/`.
pub open spec fn split_entry(e: EntryView) -> EntryView {
    EntryView { base: head_segment(e.rest), rest: tail_path(e.rest), doc: e.doc }
}

/// Every entry of a level split at its first `/`.
pub open spec fn split_entries(es: Seq<EntryView>) -> Seq<EntryView> {
    es.map_values(|e: EntryView| split_entry(e))
}

/// The distinct segments of a level, in the order in which they first appear.
pub open spec fn group_bases(es: Seq<EntryView>) -> Seq<Seq<char>>
    decreases es.len(),
{
    if es.len() == 0 {
        Seq::empty()
    } else {
        let before = group_bases(es.drop_last());
        if before.contains(es.last().base) {
            before
        } else {
            before.push(es.last().base)
        }
    }
}

/// The entries of a level that share the segment `base`, in their order.
pub open spec fn members(es: Seq<EntryView>, base: Seq<char>) -> Seq<EntryView> {
    es.filter(|e: EntryView| e.base == base)
}

/// The entries of a group that are documents of this level.
pub open spec fn leaves(ms: Seq<EntryView>) -> Seq<EntryView> {
    ms.filter(|e: EntryView| e.rest.len() == 0)
}

/// What a group of entries with one segment turns out to be.
#[derive(Clone, Copy, Debug, PartialEq, Eq, Structural)]
pub enum GroupKind {
    /// One entry, and it ends here: a document.
    Document,
    /// Every entry goes on below the segment: a folder.
    Folder,
    /// Several entries, all of which end here.
    NameConflict,
    /// Several entries, of which some end here and some go on.
    TypeConflict,
}

/// The kind of a group, by the counts of its entries that end here and that go on.
pub open spec fn group_kind(ms: Seq<EntryView>) -> GroupKind {
    let docs = leaves(ms).len();
    if ms.len() > 1 && docs > 0 {
        if docs == ms.len() {
            GroupKind::NameConflict
        } else {
            GroupKind::TypeConflict
        }
    } else if ms.len() == 1 && docs == 1 {
        GroupKind::Document
    } else {
        GroupKind::Folder
    }
}

/// A scheduled creation in the remote store.
#[derive(Debug)]
pub struct CreateRequest {
    /// What to create.
    pub item_type: ItemType,
    /// The full remote path of the item.
    pub path: String,
    /// The title of the item.
    pub title: String,
}

/// A `CreateRequest` as contracts see it.
pub struct RequestView {
    pub item_type: ItemType,
    pub path: Seq<char>,
    pub title: Seq<char>,
}

impl View for CreateRequest {
    type V = RequestView;

    open spec fn view(&self) -> RequestView {
        RequestView { item_type: self.item_type, path: self.path@, title: self.title@ }
    }
}

/// The views of a list of requests.
pub open spec fn request_views(rs: Seq<CreateRequest>) -> Seq<RequestView> {
    rs.map_values(|r: CreateRequest| r@)
}

/// A folder whose children wait for their level.
#[derive(Debug)]
pub struct PendingFolder {
    /// The full remote path of the folder.
    pub path: String,
    /// The entries below the folder.
    pub entries: Vec<ItemEntry>,
}

/// A `PendingFolder` as contracts see it.
pub struct PendingView {
    pub path: Seq<char>,
    pub entries: Seq<EntryView>,
}

impl View for PendingFolder {
    type V = PendingView;

    open spec fn view(&self) -> PendingView {
        PendingView { path: self.path@, entries: entry_views(self.entries@) }
    }
}

/// The views of a list of pending folders.
pub open spec fn pending_views(ps: Seq<PendingFolder>) -> Seq<PendingView> {
    ps.map_values(|p: PendingFolder| p@)
}

/// What one level asks for: the creations to issue together, and the folders
/// whose children form later levels.
#[derive(Debug)]
pub struct LevelPlan {
    pub requests: Vec<CreateRequest>,
    pub folders: Vec<PendingFolder>,
}

/// A `LevelPlan` as contracts see it.
pub struct LevelView {
    pub requests: Seq<RequestView>,
    pub folders: Seq<PendingView>,
}

impl View for LevelPlan {
    type V = LevelView;

    open spec fn view(&self) -> LevelView {
        LevelView {
            requests: request_views(self.requests@),
            folders: pending_views(self.folders@),
        }
    }
}

/// The remote path of the item `base` directly below `prefix`.
pub open spec fn child_path(prefix: Seq<char>, base: Seq<char>) -> Seq<char> {
    prefix + seq!['/'] + base
}

/// The plan of a level after its first `n` groups: the first conflict among
/// them, or one creation per group, a document for a group of one entry that
/// ends here, a folder titled by its segment for any other.
pub open spec fn level_plan(
    prefix: Seq<char>,
    es: Seq<EntryView>,
    docs: Seq<DocumentView>,
    n: int,
) -> Result<LevelView, SyncErrorView>
    decreases n,
{
    if n <= 0 {
        Ok(LevelView { requests: Seq::empty(), folders: Seq::empty() })
    } else {
        match level_plan(prefix, es, docs, n - 1) {
            Err(e) => Err(e),
            Ok(before) => {
                let base = group_bases(es)[n - 1];
                let ms = members(es, base);
                let path = child_path(prefix, base);
                match group_kind(ms) {
                    GroupKind::NameConflict => Err(
                        SyncErrorView::ItemNameConflict(docs[leaves(ms)[0].doc].path),
                    ),
                    GroupKind::TypeConflict => Err(
                        SyncErrorView::ItemTypeConflict(docs[leaves(ms)[0].doc].path),
                    ),
                    GroupKind::Document => Ok(
                        LevelView {
                            requests: before.requests.push(
                                RequestView {
                                    item_type: ItemType::Document,
                                    path,
                                    title: docs[ms[0].doc].title,
                                },
                            ),
                            folders: before.folders,
                        },
                    ),
                    GroupKind::Folder => Ok(
                        LevelView {
                            requests: before.requests.push(
                                RequestView { item_type: ItemType::Folder, path, title: base },
                            ),
                            folders: before.folders.push(PendingView { path, entries: ms }),
                        },
                    ),
                }
            },
        }
    }
}

/// The plan of the level that holds the entries `es` below `prefix`: each
/// entry's rest is split at its first `/`, and the groups are planned in
/// the order in which their segments first appear.
pub open spec fn level_outcome(
    prefix: Seq<char>,
    es: Seq<EntryView>,
    docs: Seq<DocumentView>,
) -> Result<LevelView, SyncErrorView> {
    level_plan(prefix, split_entries(es), docs, group_bases(split_entries(es)).len() as int)
}

/// Adding an entry to a level adds it to the group of its segment and to no other.
pub proof fn lemma_members_push(es: Seq<EntryView>, e: EntryView, base: Seq<char>)
    ensures
        members(es.push(e), base) == if e.base == base {
            members(es, base).push(e)
        } else {
            members(es, base)
        },
{
    reveal(Seq::filter);
    assert(es.push(e).drop_last() == es);
}

/// Adding an entry to a group adds it to the group's leaves if it ends here.
pub proof fn lemma_leaves_push(ms: Seq<EntryView>, e: EntryView)
    ensures
        leaves(ms.push(e)) == if e.rest.len() == 0 {
            leaves(ms).push(e)
        } else {
            leaves(ms)
        },
{
    reveal(Seq::filter);
    assert(ms.push(e).drop_last() == ms);
}

/// No segment occurs twice among the groups of a level.
pub proof fn lemma_group_bases_distinct(es: Seq<EntryView>)
    ensures
        forall|i: int, j: int|
            0 <= i < j < group_bases(es).len() ==> group_bases(es)[i] != group_bases(es)[j],
    decreases es.len(),
{
    if es.len() > 0 {
        lemma_group_bases_distinct(es.drop_last());
        let before = group_bases(es.drop_last());
        let b = es.last().base;
        if !before.contains(b) {
            assert forall|i: int, j: int| 0 <= i < j < group_bases(es).len() implies group_bases(
                es,
            )[i] != group_bases(es)[j] by {
                if j == before.len() {
                    assert(before[i] != b);
                }
            }
        }
    }
}

/// Splits every entry of a level at its first `/`.
pub fn split_level(entries: &Vec<ItemEntry>) -> (out: Vec<ItemEntry>)
    ensures
        entry_views(out@) == split_entries(entry_views(entries@)),
{
    let mut out: Vec<ItemEntry> = Vec::new();
    let mut i: usize = 0;
    while i < entries.len()
        invariant
            i <= entries.len(),
            out.len() == i,
            forall|k: int| 0 <= k < i ==> out@[k]@ == split_entry(#[trigger] entries@[k]@),
        decreases entries.len() - i,
    {
        out.push(entries[i].descend());
        i += 1;
    }
    assert(entry_views(out@) =~= split_entries(entry_views(entries@)));
    out
}

/// Groups the entries of a level by their segment: one group per distinct
/// segment, in the order in which the segments first appear, each with its
/// entries in their order.
pub fn group_by_base(entries: &Vec<ItemEntry>) -> (groups: Vec<Vec<ItemEntry>>)
    ensures
        groups.len() == group_bases(entry_views(entries@)).len(),
        forall|g: int|
            0 <= g < groups.len() ==> entry_views(#[trigger] groups@[g]@) == members(
                entry_views(entries@),
                group_bases(entry_views(entries@))[g],
            ),
        forall|g: int|
            0 <= g < groups.len() ==> (#[trigger] groups@[g]).len() > 0 && groups@[g]@[0]@.base
                == group_bases(entry_views(entries@))[g],
{
    let ghost vs = entry_views(entries@);
    let mut groups: Vec<Vec<ItemEntry>> = Vec::new();
    let mut i: usize = 0;
    while i < entries.len()
        invariant
            i <= entries.len(),
            vs == entry_views(entries@),
            groups.len() == group_bases(vs.take(i as int)).len(),
            forall|g: int|
                0 <= g < groups.len() ==> entry_views(#[trigger] groups@[g]@) == members(
                    vs.take(i as int),
                    group_bases(vs.take(i as int))[g],
                ),
            forall|g: int|
                0 <= g < groups.len() ==> (#[trigger] groups@[g]).len() > 0 && groups@[g]@[0]@.base
                    == group_bases(vs.take(i as int))[g],
        decreases entries.len() - i,
    {
        let ghost before = vs.take(i as int);
        let ghost bases = group_bases(before);
        let ghost e = vs[i as int];
        proof {
            assert(vs.take(i + 1) == before.push(e));
            assert(before.push(e).drop_last() == before);
            lemma_group_bases_distinct(before);
            assert forall|b: Seq<char>| true implies #[trigger] members(before.push(e), b) == if e.base
                == b {
                members(before, b).push(e)
            } else {
                members(before, b)
            } by {
                lemma_members_push(before, e, b);
            }
        }
        let mut g: usize = 0;
        let mut found = false;
        while g < groups.len() && !found
            invariant
                g <= groups.len(),
                i < entries.len(),
                e == entries@[i as int]@,
                groups.len() == bases.len(),
                forall|k: int|
                    0 <= k < groups.len() ==> (#[trigger] groups@[k]).len() > 0 && groups@[k]@[0]@.base
                        == bases[k],
                forall|k: int| 0 <= k < g - (if found { 1int } else { 0 }) ==> bases[k] != e.base,
                found ==> g > 0 && bases[g - 1] == e.base,
            decreases groups.len() - g + (if found { 0int } else { 1 }),
        {
            if same_text(groups[g][0].path_base.as_str(), entries[i].path_base.as_str()) {
                found = true;
            }
            g += 1;
        }
        if found {
            let at = g - 1;
            proof {
                assert(bases.contains(e.base));
                assert(group_bases(before.push(e)) == bases);
            }
            let ghost old_groups = groups@;
            groups[at].push(entries[i].duplicate());
            proof {
                assert(entry_views(groups@[at as int]@) =~= entry_views(old_groups[at as int]@).push(e));
                assert forall|k: int| 0 <= k < groups.len() implies entry_views(
                    #[trigger] groups@[k]@,
                ) == members(vs.take(i + 1), group_bases(vs.take(i + 1))[k]) by {
                    if k != at {
                        assert(groups@[k] == old_groups[k]);
                        assert(bases[k] != e.base);
                    }
                }
            }
        } else {
            proof {
                assert(!bases.contains(e.base)) by {
                    if bases.contains(e.base) {
                        let k = choose|k: int| 0 <= k < bases.len() && bases[k] == e.base;
                        assert(bases[k] != e.base);
                    }
                }
                assert(group_bases(before.push(e)) == bases.push(e.base));
                assert(members(before, e.base) =~= Seq::<EntryView>::empty()) by {
                    lemma_members_outside(before, e.base);
                }
            }
            let mut fresh: Vec<ItemEntry> = Vec::new();
            fresh.push(entries[i].duplicate());
            let ghost old_groups = groups@;
            groups.push(fresh);
            proof {
                assert(entry_views(groups@[groups.len() - 1]@) =~= Seq::<EntryView>::empty().push(e));
                assert forall|k: int| 0 <= k < groups.len() implies entry_views(
                    #[trigger] groups@[k]@,
                ) == members(vs.take(i + 1), group_bases(vs.take(i + 1))[k]) by {
                    if k < old_groups.len() {
                        assert(groups@[k] == old_groups[k]);
                        assert(bases[k] != e.base);
                    }
                }
            }
        }
        i += 1;
    }
    assert(vs.take(entries.len() as int) == vs);
    groups
}

/// A segment that is not among the groups of a level has no members.
pub proof fn lemma_members_outside(es: Seq<EntryView>, base: Seq<char>)
    requires
        !group_bases(es).contains(base),
    ensures
        members(es, base).len() == 0,
    decreases es.len(),
{
    reveal(Seq::filter);
    if es.len() > 0 {
        let before = group_bases(es.drop_last());
        if before.contains(es.last().base) {
            assert(es.last().base != base);
        } else {
            assert(before.push(es.last().base).last() == es.last().base);
            assert(es.last().base != base);
            assert forall|k: int| 0 <= k < before.len() implies before[k] != base by {
                assert(before.push(es.last().base)[k] == before[k]);
            }
        }
        lemma_members_outside(es.drop_last(), base);
    }
}


/// Every member of a group is an entry of the level and has the group's segment.
pub proof fn lemma_member_is_entry(es: Seq<EntryView>, base: Seq<char>, k: int)
    requires
        0 <= k < members(es, base).len(),
    ensures
        members(es, base)[k].base == base,
        exists|i: int| 0 <= i < es.len() && es[i] == members(es, base)[k],
    decreases es.len(),
{
    reveal(Seq::filter);
    if es.len() > 0 {
        let before = members(es.drop_last(), base);
        if k < before.len() {
            lemma_member_is_entry(es.drop_last(), base, k);
            let i = choose|i: int| 0 <= i < es.drop_last().len() && es.drop_last()[i] == before[k];
            assert(es[i] == members(es, base)[k]);
        } else {
            assert(es[es.len() - 1] == members(es, base)[k]);
        }
    }
}

/// Every leaf of a group is a member of the group and ends here.
pub proof fn lemma_leaf_is_member(ms: Seq<EntryView>, k: int)
    requires
        0 <= k < leaves(ms).len(),
    ensures
        leaves(ms)[k].rest.len() == 0,
        exists|i: int| 0 <= i < ms.len() && ms[i] == leaves(ms)[k],
    decreases ms.len(),
{
    reveal(Seq::filter);
    if ms.len() > 0 {
        let before = leaves(ms.drop_last());
        if k < before.len() {
            lemma_leaf_is_member(ms.drop_last(), k);
            let i = choose|i: int| 0 <= i < ms.drop_last().len() && ms.drop_last()[i] == before[k];
            assert(ms[i] == leaves(ms)[k]);
        } else {
            assert(ms[ms.len() - 1] == leaves(ms)[k]);
        }
    }
}

/// Every segment among the groups of a level is the segment of one of its entries.
pub proof fn lemma_group_base_is_entry_base(es: Seq<EntryView>, g: int)
    requires
        0 <= g < group_bases(es).len(),
    ensures
        exists|i: int| 0 <= i < es.len() && es[i].base == group_bases(es)[g],
    decreases es.len(),
{
    if es.len() > 0 {
        let before = group_bases(es.drop_last());
        if g < before.len() {
            lemma_group_base_is_entry_base(es.drop_last(), g);
            let i = choose|i: int| 0 <= i < es.drop_last().len() && es.drop_last()[i].base == before[g];
            assert(es[i].base == group_bases(es)[g]);
        } else {
            assert(es[es.len() - 1].base == group_bases(es)[g]);
        }
    }
}

/// Counts the entries of a group that end here and names its kind. The
/// second result is the position of the first entry that ends here, if any.
pub fn classify_group(items: &Vec<ItemEntry>) -> (r: (GroupKind, usize))
    ensures
        r.0 == group_kind(entry_views(items@)),
        leaves(entry_views(items@)).len() > 0 ==> r.1 < items.len() && items@[r.1 as int]@ == leaves(
            entry_views(items@),
        )[0],
{
    let ghost vs = entry_views(items@);
    let mut count: usize = 0;
    let mut first: usize = 0;
    let mut i: usize = 0;
    while i < items.len()
        invariant
            i <= items.len(),
            vs == entry_views(items@),
            count == leaves(vs.take(i as int)).len(),
            count <= i,
            count > 0 ==> first < i && vs[first as int] == leaves(vs.take(i as int))[0],
        decreases items.len() - i,
    {
        proof {
            assert(vs.take(i + 1) == vs.take(i as int).push(vs[i as int]));
            lemma_leaves_push(vs.take(i as int), vs[i as int]);
        }
        if items[i].is_document_path() {
            if count == 0 {
                first = i;
            }
            count += 1;
        }
        i += 1;
    }
    assert(vs.take(items.len() as int) == vs);
    let kind = if items.len() > 1 && count > 0 {
        if count == items.len() {
            GroupKind::NameConflict
        } else {
            GroupKind::TypeConflict
        }
    } else if items.len() == 1 && count == 1 {
        GroupKind::Document
    } else {
        GroupKind::Folder
    };
    (kind, first)
}

/// Joins a folder's path and the name of an item in it.
pub fn join_path(prefix: &str, base: &str) -> (path: String)
    ensures
        path@ == child_path(prefix@, base@),
{
    let mut path = String::from_str(prefix);
    path.append("/");
    path.append(base);
    proof {
        reveal_strlit("/");
        assert("/"@ =~= seq!['/']);
    }
    path
}

/// A conflict among the first groups of a level is the level's outcome.
pub proof fn lemma_level_plan_error_stays(
    prefix: Seq<char>,
    es: Seq<EntryView>,
    docs: Seq<DocumentView>,
    k: int,
    n: int,
)
    requires
        k <= n,
        level_plan(prefix, es, docs, k) is Err,
    ensures
        level_plan(prefix, es, docs, n) == level_plan(prefix, es, docs, k),
    decreases n - k,
{
    if k < n {
        lemma_level_plan_error_stays(prefix, es, docs, k, n - 1);
    }
}

/// Plans one level: splits each entry at its first `/`, groups the entries by
/// their segment and schedules one creation per group, or reports the first
/// group in which documents collide with each other or with a folder.
pub fn plan_level(prefix: &str, entries: &Vec<ItemEntry>, documents: &Vec<TIMDocument>) -> (r:
    Result<LevelPlan, SyncError>)
    requires
        forall|i: int| 0 <= i < entries.len() ==> (#[trigger] entries@[i]).doc < documents.len(),
    ensures
        match r {
            Ok(plan) => level_outcome(
                prefix@,
                entry_views(entries@),
                document_views(documents@),
            ) == Ok::<LevelView, SyncErrorView>(plan@),
            Err(e) => level_outcome(prefix@, entry_views(entries@), document_views(documents@))
                == Err::<LevelView, SyncErrorView>(e@),
        },
{
    let split = split_level(entries);
    let groups = group_by_base(&split);
    let ghost es = entry_views(split@);
    let ghost docs = document_views(documents@);
    let mut requests: Vec<CreateRequest> = Vec::new();
    let mut folders: Vec<PendingFolder> = Vec::new();
    let mut g: usize = 0;
    assert(request_views(requests@) =~= Seq::<RequestView>::empty());
    assert(pending_views(folders@) =~= Seq::<PendingView>::empty());
    while g < groups.len()
        invariant
            g <= groups.len(),
            es == entry_views(split@),
            es == split_entries(entry_views(entries@)),
            docs == document_views(documents@),
            forall|i: int| 0 <= i < entries.len() ==> (#[trigger] entries@[i]).doc < documents.len(),
            groups.len() == group_bases(es).len(),
            forall|k: int|
                0 <= k < groups.len() ==> entry_views(#[trigger] groups@[k]@) == members(
                    es,
                    group_bases(es)[k],
                ),
            forall|k: int|
                0 <= k < groups.len() ==> (#[trigger] groups@[k]).len() > 0 && groups@[k]@[0]@.base
                    == group_bases(es)[k],
            level_plan(prefix@, es, docs, g as int) == Ok::<LevelView, SyncErrorView>(
                LevelView {
                    requests: request_views(requests@),
                    folders: pending_views(folders@),
                },
            ),
        decreases groups.len() - g,
    {
        let items = &groups[g];
        let ghost ms = entry_views(items@);
        let ghost base = group_bases(es)[g as int];
        assert(ms == members(es, base));
        let (kind, first) = classify_group(items);
        let path = join_path(prefix, items[0].path_base.as_str());
        proof {
            assert forall|k: int| 0 <= k < ms.len() implies 0 <= (#[trigger] ms[k]).doc
                < documents.len() by {
                lemma_member_is_entry(es, base, k);
                let i = choose|i: int| 0 <= i < es.len() && es[i] == ms[k];
                assert(es[i].doc == entries@[i]@.doc);
            }
            assert(ms[0] == items@[0]@);
        }
        match kind {
            GroupKind::NameConflict => {
                assert(ms[first as int] == items@[first as int]@);
                let culprit = documents[items[first].doc].path.clone();
                proof {
                    let e = SyncErrorView::ItemNameConflict(docs[leaves(ms)[0].doc].path);
                    assert(level_plan(prefix@, es, docs, g + 1) == Err::<LevelView, SyncErrorView>(e));
                    lemma_level_plan_error_stays(prefix@, es, docs, g + 1, groups.len() as int);
                }
                return Err(SyncError::ItemNameConflict(culprit));
            },
            GroupKind::TypeConflict => {
                assert(ms[first as int] == items@[first as int]@);
                let culprit = documents[items[first].doc].path.clone();
                proof {
                    let e = SyncErrorView::ItemTypeConflict(docs[leaves(ms)[0].doc].path);
                    assert(level_plan(prefix@, es, docs, g + 1) == Err::<LevelView, SyncErrorView>(e));
                    lemma_level_plan_error_stays(prefix@, es, docs, g + 1, groups.len() as int);
                }
                return Err(SyncError::ItemTypeConflict(culprit));
            },
            GroupKind::Document => {
                let title = documents[items[0].doc].title.clone();
                let ghost old_requests = request_views(requests@);
                requests.push(CreateRequest { item_type: ItemType::Document, path, title });
                assert(request_views(requests@) =~= old_requests.push(
                    RequestView {
                        item_type: ItemType::Document,
                        path: child_path(prefix@, base),
                        title: docs[ms[0].doc].title,
                    },
                ));
            },
            GroupKind::Folder => {
                let title = items[0].path_base.clone();
                let ghost old_requests = request_views(requests@);
                let ghost old_folders = pending_views(folders@);
                let mut children: Vec<ItemEntry> = Vec::new();
                let mut k: usize = 0;
                while k < items.len()
                    invariant
                        k <= items.len(),
                        children.len() == k,
                        forall|j: int| 0 <= j < k ==> children@[j]@ == (#[trigger] items@[j])@,
                    decreases items.len() - k,
                {
                    children.push(items[k].duplicate());
                    k += 1;
                }
                assert(entry_views(children@) =~= ms);
                requests.push(
                    CreateRequest { item_type: ItemType::Folder, path: path.clone(), title },
                );
                folders.push(PendingFolder { path, entries: children });
                assert(request_views(requests@) =~= old_requests.push(
                    RequestView {
                        item_type: ItemType::Folder,
                        path: child_path(prefix@, base),
                        title: base,
                    },
                ));
                assert(pending_views(folders@) =~= old_folders.push(
                    PendingView { path: child_path(prefix@, base), entries: ms },
                ));
            },
        }
        g += 1;
    }
    Ok(LevelPlan { requests, folders })
}

/// The segment of every entry is among the groups of its level.
pub proof fn lemma_entry_base_in_groups(es: Seq<EntryView>, i: int)
    requires
        0 <= i < es.len(),
    ensures
        group_bases(es).contains(es[i].base),
    decreases es.len(),
{
    let before = group_bases(es.drop_last());
    if i < es.len() - 1 {
        lemma_entry_base_in_groups(es.drop_last(), i);
        let k = choose|k: int| 0 <= k < before.len() && before[k] == es.drop_last()[i].base;
        assert(group_bases(es)[k] == es[i].base);
    } else if before.contains(es.last().base) {
    } else {
        assert(group_bases(es)[before.len() as int] == es[i].base);
    }
}

/// The members of a group are as many as the entries with the group's
/// segment, and an entry with that segment that ends here is among its leaves.
pub proof fn lemma_members_count(es: Seq<EntryView>, base: Seq<char>, i: int, j: int)
    requires
        0 <= i < j < es.len(),
        es[i].base == base,
        es[j].base == base,
    ensures
        members(es, base).len() >= 2,
        es[i].rest.len() == 0 || es[j].rest.len() == 0 ==> leaves(members(es, base)).len() >= 1,
    decreases es.len(),
{
    reveal(Seq::filter);
    let keep = |e: EntryView| e.base == base;
    let ends = |e: EntryView| e.rest.len() == 0;
    if j < es.len() - 1 {
        lemma_members_count(es.drop_last(), base, i, j);
        let inner = members(es.drop_last(), base);
        if es.last().base == base {
            assert(members(es, base) == inner.push(es.last()));
            lemma_leaves_push(inner, es.last());
        }
    } else {
        lemma_member_present(es.drop_last(), base, i);
        let inner = members(es.drop_last(), base);
        assert(members(es, base) == inner.push(es[j]));
        lemma_leaves_push(inner, es[j]);
    }
}

/// An entry with the group's segment is a member of the group, and among the
/// group's leaves if it ends here.
pub proof fn lemma_member_present(es: Seq<EntryView>, base: Seq<char>, i: int)
    requires
        0 <= i < es.len(),
        es[i].base == base,
    ensures
        members(es, base).len() >= 1,
        es[i].rest.len() == 0 ==> leaves(members(es, base)).len() >= 1,
    decreases es.len(),
{
    reveal(Seq::filter);
    let inner = members(es.drop_last(), base);
    if i < es.len() - 1 {
        lemma_member_present(es.drop_last(), base, i);
        if es.last().base == base {
            assert(members(es, base) == inner.push(es.last()));
            lemma_leaves_push(inner, es.last());
        }
    } else {
        assert(members(es, base) == inner.push(es[i]));
        lemma_leaves_push(inner, es[i]);
    }
}

/// A level in which a document's path ends at a segment
/// that another entry shares, be that one a document of the same path or a
/// path that goes on below the segment, is not planned; its outcome is a conflict.
pub proof fn lemma_conflict_detected(
    prefix: Seq<char>,
    es: Seq<EntryView>,
    docs: Seq<DocumentView>,
    i: int,
    j: int,
)
    requires
        0 <= i < es.len(),
        0 <= j < es.len(),
        i != j,
        head_segment(es[i].rest) == head_segment(es[j].rest),
        tail_path(es[i].rest).len() == 0,
    ensures
        level_outcome(prefix, es, docs) is Err,
        level_outcome(prefix, es, docs)->Err_0 is ItemNameConflict || level_outcome(
            prefix,
            es,
            docs,
        )->Err_0 is ItemTypeConflict,
{
    let split = split_entries(es);
    let base = split[i].base;
    assert(split[j].base == base);
    lemma_entry_base_in_groups(split, i);
    let g = choose|g: int| 0 <= g < group_bases(split).len() && group_bases(split)[g] == base;
    if i < j {
        lemma_members_count(split, base, i, j);
    } else {
        lemma_members_count(split, base, j, i);
    }
    lemma_leaves_bound(members(split, base));
    assert(group_kind(members(split, base)) is NameConflict || group_kind(members(split, base))
        is TypeConflict);
    lemma_level_plan_conflicts(prefix, split, docs, g + 1);
    lemma_level_plan_error_stays(prefix, split, docs, g + 1, group_bases(split).len() as int);
}

/// A group has no more leaves than members.
pub proof fn lemma_leaves_bound(ms: Seq<EntryView>)
    ensures
        leaves(ms).len() <= ms.len(),
{
    ms.lemma_filter_len(|e: EntryView| e.rest.len() == 0);
}

/// The plan of a level is a conflict once one of its first groups is one,
/// and a plan that is an error is a conflict of names or of kinds.
pub proof fn lemma_level_plan_conflicts(
    prefix: Seq<char>,
    es: Seq<EntryView>,
    docs: Seq<DocumentView>,
    n: int,
)
    requires
        0 <= n <= group_bases(es).len(),
    ensures
        (exists|g: int|
            0 <= g < n && (group_kind(members(es, #[trigger] group_bases(es)[g])) is NameConflict
                || group_kind(members(es, group_bases(es)[g])) is TypeConflict)) ==> level_plan(
            prefix,
            es,
            docs,
            n,
        ) is Err,
        level_plan(prefix, es, docs, n) is Err ==> level_plan(prefix, es, docs, n)->Err_0
            is ItemNameConflict || level_plan(prefix, es, docs, n)->Err_0 is ItemTypeConflict,
    decreases n,
{
    if n > 0 {
        lemma_level_plan_conflicts(prefix, es, docs, n - 1);
    }
}

/// The place in its level of the member number `k` of a group.
pub open spec fn member_place(es: Seq<EntryView>, base: Seq<char>, k: int) -> int
    decreases es.len(),
{
    if es.len() == 0 {
        0
    } else if k < members(es.drop_last(), base).len() {
        member_place(es.drop_last(), base, k)
    } else {
        es.len() - 1
    }
}

/// The members of a group stand at places of their level, each at its own.
pub proof fn lemma_member_place(es: Seq<EntryView>, base: Seq<char>, k: int)
    requires
        0 <= k < members(es, base).len(),
    ensures
        0 <= member_place(es, base, k) < es.len(),
        es[member_place(es, base, k)] == members(es, base)[k],
        forall|m: int|
            0 <= m < k ==> (#[trigger] member_place(es, base, m)) < member_place(es, base, k),
    decreases es.len(),
{
    reveal(Seq::filter);
    if es.len() > 0 {
        let inner = members(es.drop_last(), base);
        if k < inner.len() {
            lemma_member_place(es.drop_last(), base, k);
            assert(members(es, base)[k] == inner[k]);
            assert forall|m: int| 0 <= m < k implies (#[trigger] member_place(es, base, m))
                < member_place(es, base, k) by {
                assert(member_place(es, base, m) == member_place(es.drop_last(), base, m));
            }
        } else {
            assert(members(es, base) == inner.push(es.last()));
            assert forall|m: int| 0 <= m < k implies (#[trigger] member_place(es, base, m))
                < member_place(es, base, k) by {
                lemma_member_place(es.drop_last(), base, m);
            }
        }
    }
}

/// A level without conflict is planned: where no document's path ends at a
/// segment that another entry shares, the outcome of the level is a plan.
pub proof fn lemma_no_conflict_is_planned(
    prefix: Seq<char>,
    es: Seq<EntryView>,
    docs: Seq<DocumentView>,
)
    requires
        forall|i: int, j: int|
            0 <= i < es.len() && 0 <= j < es.len() && i != j && head_segment(
                (#[trigger] es[i]).rest,
            ) == head_segment((#[trigger] es[j]).rest) ==> tail_path(es[i].rest).len() > 0,
    ensures
        level_outcome(prefix, es, docs) is Ok,
{
    let split = split_entries(es);
    assert forall|g: int| 0 <= g < group_bases(split).len() implies !(group_kind(
        members(split, #[trigger] group_bases(split)[g]),
    ) is NameConflict || group_kind(members(split, group_bases(split)[g])) is TypeConflict) by {
        let base = group_bases(split)[g];
        let ms = members(split, base);
        if ms.len() > 1 && leaves(ms).len() > 0 {
            lemma_leaf_is_member(ms, 0);
            let a = choose|a: int| 0 <= a < ms.len() && ms[a] == leaves(ms)[0];
            let b = if a == 0 {
                1int
            } else {
                0int
            };
            lemma_member_place(split, base, a);
            lemma_member_place(split, base, b);
            lemma_member_is_entry(split, base, a);
            lemma_member_is_entry(split, base, b);
            let i = member_place(split, base, a);
            let j = member_place(split, base, b);
            assert(i != j);
            assert(split[i].base == base && split[j].base == base);
            assert(split[i].rest.len() == 0);
            assert(head_segment(es[i].rest) == head_segment(es[j].rest));
            assert(tail_path(es[i].rest).len() > 0);
        }
    }
    lemma_level_plan_planned(prefix, split, docs, group_bases(split).len() as int);
}

/// The plan of a level is a plan as long as none of its first groups is a conflict.
pub proof fn lemma_level_plan_planned(
    prefix: Seq<char>,
    es: Seq<EntryView>,
    docs: Seq<DocumentView>,
    n: int,
)
    requires
        0 <= n <= group_bases(es).len(),
        forall|g: int|
            0 <= g < group_bases(es).len() ==> !(group_kind(
                members(es, #[trigger] group_bases(es)[g]),
            ) is NameConflict || group_kind(members(es, group_bases(es)[g])) is TypeConflict),
    ensures
        level_plan(prefix, es, docs, n) is Ok,
    decreases n,
{
    if n > 0 {
        lemma_level_plan_planned(prefix, es, docs, n - 1);
        let ms = members(es, group_bases(es)[n - 1]);
        assert(!(group_kind(ms) is NameConflict || group_kind(ms) is TypeConflict));
    }
}

/// Every entry is a member of the group of its segment.
pub proof fn lemma_entry_is_member(es: Seq<EntryView>, i: int)
    requires
        0 <= i < es.len(),
    ensures
        exists|k: int|
            0 <= k < members(es, es[i].base).len() && #[trigger] members(es, es[i].base)[k] == es[i],
    decreases es.len(),
{
    reveal(Seq::filter);
    let base = es[i].base;
    let inner = members(es.drop_last(), base);
    if i < es.len() - 1 {
        lemma_entry_is_member(es.drop_last(), i);
        let k = choose|k: int| 0 <= k < inner.len() && #[trigger] inner[k] == es.drop_last()[i];
        assert(members(es, base)[k] == es[i]);
    } else {
        assert(members(es, base) == inner.push(es[i]));
        assert(members(es, base)[inner.len() as int] == es[i]);
    }
}

/// What the plan of a level holds for each of its groups: for a document
/// group the request for the document, for a folder group the request for
/// the folder and the pending folder with the members of the group.
pub proof fn lemma_level_groups(
    prefix: Seq<char>,
    es: Seq<EntryView>,
    docs: Seq<DocumentView>,
    n: int,
    plan: LevelView,
)
    requires
        0 <= n <= group_bases(es).len(),
        level_plan(prefix, es, docs, n) == Ok::<LevelView, SyncErrorView>(plan),
    ensures
        plan.requests.len() == n,
        forall|g: int|
            0 <= g < n ==> {
                let base = #[trigger] group_bases(es)[g];
                let ms = members(es, base);
                match group_kind(ms) {
                    GroupKind::Document => plan.requests[g] == (RequestView {
                        item_type: ItemType::Document,
                        path: child_path(prefix, base),
                        title: docs[ms[0].doc].title,
                    }),
                    GroupKind::Folder => plan.requests[g] == (RequestView {
                        item_type: ItemType::Folder,
                        path: child_path(prefix, base),
                        title: base,
                    }) && exists|j: int|
                        0 <= j < plan.folders.len() && #[trigger] plan.folders[j] == (PendingView {
                            path: child_path(prefix, base),
                            entries: ms,
                        }),
                    _ => false,
                }
            },
    decreases n,
{
    if n > 0 {
        let before = level_plan(prefix, es, docs, n - 1)->Ok_0;
        lemma_level_groups(prefix, es, docs, n - 1, before);
        assert forall|g: int| 0 <= g < n implies ({
            let base = #[trigger] group_bases(es)[g];
            let ms = members(es, base);
            match group_kind(ms) {
                GroupKind::Document => plan.requests[g] == (RequestView {
                    item_type: ItemType::Document,
                    path: child_path(prefix, base),
                    title: docs[ms[0].doc].title,
                }),
                GroupKind::Folder => plan.requests[g] == (RequestView {
                    item_type: ItemType::Folder,
                    path: child_path(prefix, base),
                    title: base,
                }) && exists|j: int|
                    0 <= j < plan.folders.len() && #[trigger] plan.folders[j] == (PendingView {
                        path: child_path(prefix, base),
                        entries: ms,
                    }),
                _ => false,
            }
        }) by {
            let base = group_bases(es)[g];
            let ms = members(es, base);
            if g < n - 1 {
                assert(plan.requests[g] == before.requests[g]);
                if group_kind(ms) is Folder {
                    let j = choose|j: int|
                        0 <= j < before.folders.len() && #[trigger] before.folders[j] == (PendingView {
                            path: child_path(prefix, base),
                            entries: ms,
                        });
                    assert(plan.folders[j] == before.folders[j]);
                }
            } else {
                if group_kind(ms) is Folder {
                    assert(plan.folders[plan.folders.len() - 1] == PendingView {
                        path: child_path(prefix, base),
                        entries: ms,
                    });
                }
            }
        }
    }
}

} // verus!
