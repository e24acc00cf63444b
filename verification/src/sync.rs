//! The remote tree synchronizer: the decisions of a synchronization run, one
//! level of the path tree at a time. The caller issues each batch of
//! creations, waits for all of it, and reports the identifiers it got.

use vstd::prelude::*;
use vstd::hash_map::StringHashMap;
use crate::text::{chars_string, str_chars};
use crate::tim_document::{document_views, DocumentView, TIMDocument};
use crate::tree::{
    child_path, entry_views, group_bases, group_kind, head_segment, join_path,
    lemma_entry_base_in_groups, lemma_entry_is_member, lemma_group_base_is_entry_base,
    lemma_group_bases_distinct, lemma_leaf_is_member, lemma_leaves_bound, lemma_level_groups,
    lemma_member_is_entry, lemma_member_present, lemma_slash_pos, level_outcome, level_plan,
    members, pending_views, plan_level, request_views, split_entries, tail_path, CreateRequest,
    EntryView, ItemEntry, ItemType, LevelPlan, LevelView, PendingFolder, PendingView, RequestView,
    SyncError, SyncErrorView,
};

verus! {

/// The path of the folder that holds the item at `path`: what stands before
/// the last `/`.
pub open spec fn parent_path(path: Seq<char>) -> Seq<char>
    decreases path.len(),
{
    if path.len() == 0 {
        path
    } else if path.last() == '/' {
        path.drop_last()
    } else {
        parent_path(path.drop_last())
    }
}

/// The parent of `prefix/base` is `prefix` when `base` is a single segment.
pub proof fn lemma_parent_of_child(prefix: Seq<char>, base: Seq<char>)
    requires
        forall|i: int| 0 <= i < base.len() ==> base[i] != '/',
    ensures
        parent_path(child_path(prefix, base)) == prefix,
    decreases base.len(),
{
    let p = child_path(prefix, base);
    if base.len() == 0 {
        assert(p.drop_last() =~= prefix);
    } else {
        assert(p.last() == base.last());
        assert(p.drop_last() =~= child_path(prefix, base.drop_last()));
        lemma_parent_of_child(prefix, base.drop_last());
    }
}

/// A folder at `path` is among the requests of one of the first `k` batches.
pub open spec fn folder_issued_before(batches: Seq<Seq<RequestView>>, k: int, path: Seq<char>) -> bool {
    exists|b: int, r: int|
        0 <= b < k && b < batches.len() && 0 <= r < batches[b].len() && (#[trigger] batches[b][r])
            == (RequestView { item_type: ItemType::Folder, path, title: batches[b][r].title })
}

/// No item is requested before the folder that holds it: the parent of every
/// requested path is the root or a folder requested in an earlier batch.
pub open spec fn parents_first(root: Seq<char>, batches: Seq<Seq<RequestView>>) -> bool {
    forall|k: int, r: int|
        0 <= k < batches.len() && 0 <= r < batches[k].len() ==> {
            let parent = parent_path((#[trigger] batches[k][r]).path);
            parent == root || folder_issued_before(batches, k, parent)
        }
}

/// `r` asks for an item directly below `prefix`, named by one of the level's segments.
pub open spec fn request_of_level(prefix: Seq<char>, es: Seq<EntryView>, r: RequestView) -> bool {
    exists|g: int|
        0 <= g < group_bases(es).len() && r.path == child_path(prefix, #[trigger] group_bases(es)[g])
}

/// A folder at `path` is among `requests`.
pub open spec fn folder_among(requests: Seq<RequestView>, path: Seq<char>) -> bool {
    exists|j: int|
        0 <= j < requests.len() && (#[trigger] requests[j]) == (RequestView {
            item_type: ItemType::Folder,
            path,
            title: requests[j].title,
        })
}

/// `entries` are the members of one of the level's groups.
pub open spec fn group_of_level(es: Seq<EntryView>, entries: Seq<EntryView>) -> bool {
    exists|g: int| 0 <= g < group_bases(es).len() && entries == members(es, #[trigger] group_bases(es)[g])
}

/// What a level's plan holds: every request is for an item directly below the
/// level's folder, and every pending folder was requested in this plan and
/// holds the members of one group.
pub proof fn lemma_level_structure(
    prefix: Seq<char>,
    es: Seq<EntryView>,
    docs: Seq<DocumentView>,
    n: int,
    plan: LevelView,
)
    requires
        0 <= n <= group_bases(es).len(),
        level_plan(prefix, es, docs, n) == Ok::<LevelView, SyncErrorView>(plan),
    ensures
        forall|j: int|
            0 <= j < plan.requests.len() ==> request_of_level(prefix, es, #[trigger] plan.requests[j]),
        forall|j: int|
            0 <= j < plan.folders.len() ==> folder_among(
                plan.requests,
                (#[trigger] plan.folders[j]).path,
            ) && group_of_level(es, plan.folders[j].entries),
    decreases n,
{
    if n > 0 {
        let before = level_plan(prefix, es, docs, n - 1)->Ok_0;
        lemma_level_structure(prefix, es, docs, n - 1, before);
        let base = group_bases(es)[n - 1];
        let path = child_path(prefix, base);
        assert forall|j: int| 0 <= j < plan.requests.len() implies request_of_level(
            prefix,
            es,
            #[trigger] plan.requests[j],
        ) by {
            if j < before.requests.len() {
                assert(plan.requests[j] == before.requests[j]);
            } else {
                assert(plan.requests[j].path == child_path(prefix, group_bases(es)[n - 1]));
            }
        }
        assert forall|j: int| 0 <= j < plan.folders.len() implies folder_among(
            plan.requests,
            (#[trigger] plan.folders[j]).path,
        ) && group_of_level(es, plan.folders[j].entries) by {
            let f = plan.folders[j];
            if j < before.folders.len() {
                assert(f == before.folders[j]);
                let w = choose|w: int|
                    0 <= w < before.requests.len() && (#[trigger] before.requests[w]) == (RequestView {
                        item_type: ItemType::Folder,
                        path: f.path,
                        title: before.requests[w].title,
                    });
                assert(plan.requests[w] == before.requests[w]);
            } else {
                let w = plan.requests.len() - 1;
                assert(plan.requests[w] == RequestView {
                    item_type: ItemType::Folder,
                    path: f.path,
                    title: plan.requests[w].title,
                });
                assert(f.entries == members(es, group_bases(es)[n - 1]));
            }
        }
    }
}

/// The requests of a level stand one for each group, in the order of the
/// groups, each for the item that the group's segment names below the
/// level's folder; and the pending folders have paths of their own.
pub proof fn lemma_level_requests(
    prefix: Seq<char>,
    es: Seq<EntryView>,
    docs: Seq<DocumentView>,
    n: int,
    plan: LevelView,
)
    requires
        0 <= n <= group_bases(es).len(),
        level_plan(prefix, es, docs, n) == Ok::<LevelView, SyncErrorView>(plan),
    ensures
        plan.requests.len() == n,
        forall|g: int|
            0 <= g < n ==> (#[trigger] plan.requests[g]).path == child_path(
                prefix,
                group_bases(es)[g],
            ),
        forall|j: int|
            0 <= j < plan.folders.len() ==> exists|g: int|
                0 <= g < n && (#[trigger] plan.folders[j]).path == child_path(
                    prefix,
                    #[trigger] group_bases(es)[g],
                ),
        forall|a: int, b: int|
            0 <= a < b < plan.folders.len() ==> (#[trigger] plan.folders[a]).path != (
            #[trigger] plan.folders[b]).path,
    decreases n,
{
    if n > 0 {
        let before = level_plan(prefix, es, docs, n - 1)->Ok_0;
        lemma_level_requests(prefix, es, docs, n - 1, before);
        lemma_group_bases_distinct(es);
        let base = group_bases(es)[n - 1];
        assert forall|j: int| 0 <= j < plan.folders.len() implies exists|g: int|
            0 <= g < n && (#[trigger] plan.folders[j]).path == child_path(
                prefix,
                #[trigger] group_bases(es)[g],
            ) by {
            if j < before.folders.len() {
                assert(plan.folders[j] == before.folders[j]);
                let g = choose|g: int|
                    0 <= g < n - 1 && before.folders[j].path == child_path(
                        prefix,
                        #[trigger] group_bases(es)[g],
                    );
                assert(plan.folders[j].path == child_path(prefix, group_bases(es)[g]));
            } else {
                assert(plan.folders[j].path == child_path(prefix, group_bases(es)[n - 1]));
            }
        }
        assert forall|a: int, b: int| 0 <= a < b < plan.folders.len() implies (
        #[trigger] plan.folders[a]).path != (#[trigger] plan.folders[b]).path by {
            assert(plan.folders[a] == before.folders[a]);
            if b < before.folders.len() {
                assert(plan.folders[b] == before.folders[b]);
            } else {
                let g = choose|g: int|
                    0 <= g < n - 1 && before.folders[a].path == child_path(
                        prefix,
                        #[trigger] group_bases(es)[g],
                    );
                lemma_child_path_injective(prefix, group_bases(es)[g], base);
            }
        }
    }
}

/// Items with different names below one folder have different paths.
pub proof fn lemma_child_path_injective(prefix: Seq<char>, a: Seq<char>, b: Seq<char>)
    requires
        a != b,
    ensures
        child_path(prefix, a) != child_path(prefix, b),
{
    if child_path(prefix, a) == child_path(prefix, b) {
        assert(child_path(prefix, a).skip(prefix.len() as int + 1) =~= a);
        assert(child_path(prefix, b).skip(prefix.len() as int + 1) =~= b);
    }
}

/// No path is requested twice.
pub open spec fn request_paths_distinct(batches: Seq<Seq<RequestView>>) -> bool {
    forall|k1: int, r1: int, k2: int, r2: int|
        0 <= k1 < batches.len() && 0 <= r1 < batches[k1].len() && 0 <= k2 < batches.len() && 0
            <= r2 < batches[k2].len() && (k1 != k2 || r1 != r2) ==> (#[trigger] batches[k1][r1]).path
            != (#[trigger] batches[k2][r2]).path
}

/// The pending folders are fresh: no two have one path, nothing was yet
/// requested below any of them, and every path lies at or below the root.
pub open spec fn pending_fresh(
    root: Seq<char>,
    batches: Seq<Seq<RequestView>>,
    pending: Seq<PendingView>,
) -> bool {
    &&& forall|a: int, b: int|
        0 <= a < b < pending.len() ==> (#[trigger] pending[a]).path != (#[trigger] pending[b]).path
    &&& forall|q: int, k: int, r: int|
        0 <= q < pending.len() && 0 <= k < batches.len() && 0 <= r < batches[k].len()
            ==> parent_path((#[trigger] batches[k][r]).path) != (#[trigger] pending[q]).path
    &&& forall|q: int| 0 <= q < pending.len() ==> (#[trigger] pending[q]).path.len() >= root.len()
    &&& forall|k: int, r: int|
        0 <= k < batches.len() && 0 <= r < batches[k].len() ==> (#[trigger] batches[k][r]).path.len()
            > root.len()
}

/// Planning a level keeps the requested paths distinct and the pending
/// folders fresh.
pub proof fn lemma_level_keeps_paths_distinct(
    root: Seq<char>,
    batches: Seq<Seq<RequestView>>,
    pending: Seq<PendingView>,
    docs: Seq<DocumentView>,
    plan: LevelView,
)
    requires
        pending.len() > 0,
        level_outcome(pending[0].path, pending[0].entries, docs) == Ok::<LevelView, SyncErrorView>(
            plan,
        ),
        parents_first(root, batches),
        forall|q: int|
            0 <= q < pending.len() ==> (#[trigger] pending[q]).path == root || folder_issued_before(
                batches,
                batches.len() as int,
                pending[q].path,
            ),
        request_paths_distinct(batches),
        pending_fresh(root, batches, pending),
    ensures
        request_paths_distinct(batches.push(plan.requests)),
        pending_fresh(root, batches.push(plan.requests), pending.skip(1) + plan.folders),
{
    let prefix = pending[0].path;
    let level = pending[0].entries;
    let es = split_entries(level);
    let n = group_bases(es).len() as int;
    let k = batches.len() as int;
    let after = batches.push(plan.requests);
    let queue = pending.skip(1) + plan.folders;
    lemma_level_requests(prefix, es, docs, n, plan);
    lemma_group_bases_distinct(es);
    // Every new request stands directly below the planned folder.
    assert forall|g: int| 0 <= g < n implies parent_path((#[trigger] plan.requests[g]).path) == prefix
        && plan.requests[g].path.len() > prefix.len() by {
        lemma_group_base_is_entry_base(es, g);
        let w = choose|w: int| 0 <= w < es.len() && es[w].base == group_bases(es)[g];
        assert(es[w].base == head_segment(level[w].rest));
        lemma_slash_pos(level[w].rest);
        lemma_parent_of_child(prefix, group_bases(es)[g]);
    }
    assert forall|k1: int, r1: int, k2: int, r2: int|
        0 <= k1 < after.len() && 0 <= r1 < after[k1].len() && 0 <= k2 < after.len() && 0 <= r2
            < after[k2].len() && (k1 != k2 || r1 != r2) implies (#[trigger] after[k1][r1]).path != (
    #[trigger] after[k2][r2]).path by {
        if k1 < k && k2 < k {
            assert(after[k1][r1] == batches[k1][r1]);
            assert(after[k2][r2] == batches[k2][r2]);
        } else if k1 == k && k2 == k {
            lemma_child_path_injective(prefix, group_bases(es)[r1], group_bases(es)[r2]);
        } else if k1 < k {
            assert(after[k1][r1] == batches[k1][r1]);
            assert(parent_path(batches[k1][r1].path) != pending[0].path);
        } else {
            assert(after[k2][r2] == batches[k2][r2]);
            assert(parent_path(batches[k2][r2].path) != pending[0].path);
        }
    }
    // A folder that queues up is one of the new requests.
    assert forall|j: int| 0 <= j < plan.folders.len() implies exists|g: int|
        0 <= g < n && (#[trigger] plan.requests[g]).path == (#[trigger] plan.folders[j]).path by {
        let g = choose|g: int|
            0 <= g < n && plan.folders[j].path == child_path(prefix, #[trigger] group_bases(es)[g]);
        assert(plan.requests[g].path == plan.folders[j].path);
    }
    assert forall|a: int, b: int| 0 <= a < b < queue.len() implies (#[trigger] queue[a]).path != (
    #[trigger] queue[b]).path by {
        let old_len = pending.len() - 1;
        if b < old_len {
            assert(queue[a] == pending[a + 1] && queue[b] == pending[b + 1]);
        } else if a >= old_len {
            assert(queue[a] == plan.folders[a - old_len] && queue[b] == plan.folders[b - old_len]);
        } else {
            assert(queue[a] == pending[a + 1]);
            let f = plan.folders[b - old_len];
            assert(queue[b] == f);
            let g = choose|g: int| 0 <= g < n && (#[trigger] plan.requests[g]).path == f.path;
            lemma_pending_is_no_new_request(root, batches, pending, a + 1, plan.requests[g].path);
        }
    }
    assert forall|q: int, k1: int, r1: int|
        0 <= q < queue.len() && 0 <= k1 < after.len() && 0 <= r1 < after[k1].len() implies parent_path(
        (#[trigger] after[k1][r1]).path,
    ) != (#[trigger] queue[q]).path by {
        let old_len = pending.len() - 1;
        if q < old_len {
            assert(queue[q] == pending[q + 1]);
            if k1 < k {
                assert(after[k1][r1] == batches[k1][r1]);
            } else {
                assert(parent_path(plan.requests[r1].path) == prefix);
                assert(pending[0].path != pending[q + 1].path);
            }
        } else {
            let f = plan.folders[q - old_len];
            assert(queue[q] == f);
            let g = choose|g: int| 0 <= g < n && (#[trigger] plan.requests[g]).path == f.path;
            if k1 < k {
                assert(after[k1][r1] == batches[k1][r1]);
                let parent = parent_path(batches[k1][r1].path);
                if parent == f.path {
                    assert(parent != root);
                    assert(folder_issued_before(batches, k1, parent));
                    let (x, y) = choose|x: int, y: int|
                        0 <= x < k1 && x < batches.len() && 0 <= y < batches[x].len() && (
                        #[trigger] batches[x][y]) == (RequestView {
                            item_type: ItemType::Folder,
                            path: parent,
                            title: batches[x][y].title,
                        });
                    assert(after[x][y] == batches[x][y]);
                    assert(after[k][g] == plan.requests[g]);
                    assert(after[x][y].path != after[k][g].path);
                }
            } else {
                assert(parent_path(plan.requests[r1].path) == prefix);
                assert(plan.requests[g].path.len() > prefix.len());
            }
        }
    }
    assert forall|q: int| 0 <= q < queue.len() implies (#[trigger] queue[q]).path.len()
        >= root.len() by {
        let old_len = pending.len() - 1;
        if q < old_len {
            assert(queue[q] == pending[q + 1]);
        } else {
            let f = plan.folders[q - old_len];
            assert(queue[q] == f);
            let g = choose|g: int| 0 <= g < n && (#[trigger] plan.requests[g]).path == f.path;
            assert(pending[0].path.len() >= root.len());
        }
    }
    assert forall|k1: int, r1: int| 0 <= k1 < after.len() && 0 <= r1 < after[k1].len() implies (
    #[trigger] after[k1][r1]).path.len() > root.len() by {
        if k1 < k {
            assert(after[k1][r1] == batches[k1][r1]);
        } else {
            assert(plan.requests[r1].path.len() > prefix.len());
            assert(pending[0].path.len() >= root.len());
        }
    }
}

/// A pending folder other than the one being planned is none of the
/// paths that the planned level asks for.
proof fn lemma_pending_is_no_new_request(
    root: Seq<char>,
    batches: Seq<Seq<RequestView>>,
    pending: Seq<PendingView>,
    q: int,
    path: Seq<char>,
)
    requires
        0 < q < pending.len(),
        parent_path(path) == pending[0].path,
        pending_fresh(root, batches, pending),
        path.len() > pending[0].path.len(),
        pending[q].path == root || folder_issued_before(
            batches,
            batches.len() as int,
            pending[q].path,
        ),
    ensures
        pending[q].path != path,
{
    if pending[q].path == path {
        assert(pending[0].path.len() >= root.len());
        let (x, y) = choose|x: int, y: int|
            0 <= x < batches.len() && x < batches.len() && 0 <= y < batches[x].len() && (
            #[trigger] batches[x][y]) == (RequestView {
                item_type: ItemType::Folder,
                path,
                title: batches[x][y].title,
            });
        assert(parent_path(batches[x][y].path) != pending[0].path);
    }
}

/// A path that names a document: it does not end in `/`.
pub open spec fn proper_path(path: Seq<char>) -> bool {
    path.len() == 0 || path.last() != '/'
}

/// A document at `path` is among the requests.
pub open spec fn document_requested(batches: Seq<Seq<RequestView>>, path: Seq<char>) -> bool {
    exists|k: int, r: int|
        0 <= k < batches.len() && 0 <= r < batches[k].len() && (#[trigger] batches[k][r]).item_type
            == ItemType::Document && batches[k][r].path == path
}

/// The document number `doc` waits in a pending folder, on its way to `target`.
pub open spec fn document_awaits(pending: Seq<PendingView>, target: Seq<char>, doc: int) -> bool {
    exists|q: int, e: int|
        0 <= q < pending.len() && 0 <= e < pending[q].entries.len() && (
        #[trigger] pending[q].entries[e]).doc == doc && child_path(
            pending[q].path,
            pending[q].entries[e].rest,
        ) == target && proper_path(pending[q].entries[e].rest)
}

/// No document is lost: every document whose path names a document was
/// requested at its path below the root, or waits in a pending folder on
/// its way there.
pub open spec fn documents_on_their_way(
    root: Seq<char>,
    docs: Seq<DocumentView>,
    batches: Seq<Seq<RequestView>>,
    pending: Seq<PendingView>,
) -> bool {
    forall|i: int|
        0 <= i < docs.len() && proper_path((#[trigger] docs[i]).path) ==> document_requested(
            batches,
            child_path(root, docs[i].path),
        ) || document_awaits(pending, child_path(root, docs[i].path), i)
}

/// A path that names a document and has nothing behind its first segment
/// is that segment.
pub proof fn lemma_single_segment(rest: Seq<char>)
    requires
        proper_path(rest),
        tail_path(rest).len() == 0,
    ensures
        head_segment(rest) == rest,
{
    lemma_slash_pos(rest);
    assert(head_segment(rest) =~= rest);
}

/// A path is its first segment, a `/` and what follows, where something follows.
pub proof fn lemma_segment_and_tail(prefix: Seq<char>, rest: Seq<char>)
    requires
        tail_path(rest).len() > 0,
    ensures
        child_path(child_path(prefix, head_segment(rest)), tail_path(rest)) == child_path(
            prefix,
            rest,
        ),
        tail_path(rest).last() == rest.last(),
{
    lemma_slash_pos(rest);
    assert(child_path(child_path(prefix, head_segment(rest)), tail_path(rest)) =~= child_path(
        prefix,
        rest,
    ));
}

/// Planning a level loses no document.
pub proof fn lemma_level_keeps_documents(
    root: Seq<char>,
    docs: Seq<DocumentView>,
    batches: Seq<Seq<RequestView>>,
    pending: Seq<PendingView>,
    plan: LevelView,
)
    requires
        pending.len() > 0,
        level_outcome(pending[0].path, pending[0].entries, docs) == Ok::<LevelView, SyncErrorView>(
            plan,
        ),
        documents_on_their_way(root, docs, batches, pending),
    ensures
        documents_on_their_way(root, docs, batches.push(plan.requests), pending.skip(1) + plan.folders),
{
    let prefix = pending[0].path;
    let level = pending[0].entries;
    let es = split_entries(level);
    let n = group_bases(es).len() as int;
    let after = batches.push(plan.requests);
    let queue = pending.skip(1) + plan.folders;
    lemma_level_groups(prefix, es, docs, n, plan);
    assert forall|i: int| 0 <= i < docs.len() && proper_path((#[trigger] docs[i]).path) implies document_requested(
        after,
        child_path(root, docs[i].path),
    ) || document_awaits(queue, child_path(root, docs[i].path), i) by {
        let target = child_path(root, docs[i].path);
        if document_requested(batches, target) {
            let (k, r) = choose|k: int, r: int|
                0 <= k < batches.len() && 0 <= r < batches[k].len() && (
                #[trigger] batches[k][r]).item_type == ItemType::Document && batches[k][r].path
                    == target;
            assert(after[k][r] == batches[k][r]);
        } else {
            let (q, e) = choose|q: int, e: int|
                0 <= q < pending.len() && 0 <= e < pending[q].entries.len() && (
                #[trigger] pending[q].entries[e]).doc == i && child_path(
                    pending[q].path,
                    pending[q].entries[e].rest,
                ) == target && proper_path(pending[q].entries[e].rest);
            if q > 0 {
                assert(queue[q - 1] == pending[q]);
                assert(queue[q - 1].entries[e] == pending[q].entries[e]);
            } else {
                let rest = level[e].rest;
                let base = es[e].base;
                assert(es[e] == crate::tree::split_entry(level[e]));
                lemma_entry_base_in_groups(es, e);
                let g = choose|g: int| 0 <= g < group_bases(es).len() && group_bases(es)[g] == base;
                let ms = members(es, base);
                lemma_entry_is_member(es, e);
                let m = choose|m: int| 0 <= m < ms.len() && #[trigger] ms[m] == es[e];
                lemma_member_present(es, base, e);
                lemma_leaves_bound(ms);
                assert(group_bases(es)[g] == base);
                if es[e].rest.len() == 0 {
                    assert(group_kind(ms) is Document);
                    lemma_single_segment(rest);
                    assert(after[batches.len() as int][g] == plan.requests[g]);
                    assert(plan.requests[g].path == target);
                } else {
                    if group_kind(ms) is Document {
                        lemma_leaf_is_member(ms, 0);
                    }
                    assert(group_kind(ms) is Folder);
                    let j = choose|j: int|
                        0 <= j < plan.folders.len() && #[trigger] plan.folders[j] == (PendingView {
                            path: child_path(prefix, base),
                            entries: ms,
                        });
                    lemma_segment_and_tail(prefix, rest);
                    let place = pending.len() - 1 + j;
                    assert(queue[place] == plan.folders[j]);
                    assert(queue[place].entries[m] == es[e]);
                }
            }
        }
    }
}

/// A state of a run is consistent: entries point at documents, every
/// pending folder is the root or was requested, no request came before the
/// request for its parent folder, no path was requested twice, and no
/// document is lost.
pub open spec fn state_wf(
    root: Seq<char>,
    docs: Seq<DocumentView>,
    batches: Seq<Seq<RequestView>>,
    pending: Seq<PendingView>,
) -> bool {
    &&& request_paths_distinct(batches)
    &&& pending_fresh(root, batches, pending)
    &&& documents_on_their_way(root, docs, batches, pending)
    &&& forall|q: int, i: int|
        0 <= q < pending.len() && 0 <= i < pending[q].entries.len() ==> 0 <= (
        #[trigger] pending[q].entries[i]).doc < docs.len()
    &&& forall|q: int|
        0 <= q < pending.len() ==> (#[trigger] pending[q]).path == root || folder_issued_before(
            batches,
            batches.len() as int,
            pending[q].path,
        )
    &&& parents_first(root, batches)
}

/// Planning a level keeps the state of a run consistent.
pub proof fn lemma_level_keeps_state(
    root: Seq<char>,
    docs: Seq<DocumentView>,
    batches: Seq<Seq<RequestView>>,
    pending: Seq<PendingView>,
    plan: LevelView,
)
    requires
        pending.len() > 0,
        level_outcome(pending[0].path, pending[0].entries, docs) == Ok::<LevelView, SyncErrorView>(
            plan,
        ),
        state_wf(root, docs, batches, pending),
    ensures
        state_wf(root, docs, batches.push(plan.requests), pending.skip(1) + plan.folders),
{
    lemma_level_keeps_paths_distinct(root, batches, pending, docs, plan);
    lemma_level_keeps_documents(root, docs, batches, pending, plan);
    lemma_level_keeps_order(root, docs, batches, pending, plan);
    lemma_level_keeps_entries(docs, pending, plan);
}

/// Planning a level keeps the order of the requests: no request comes
/// before the request for its parent folder, and every pending folder is
/// the root or was requested.
pub proof fn lemma_level_keeps_order(
    root: Seq<char>,
    docs: Seq<DocumentView>,
    batches: Seq<Seq<RequestView>>,
    pending: Seq<PendingView>,
    plan: LevelView,
)
    requires
        pending.len() > 0,
        level_outcome(pending[0].path, pending[0].entries, docs) == Ok::<LevelView, SyncErrorView>(
            plan,
        ),
        parents_first(root, batches),
        forall|q: int|
            0 <= q < pending.len() ==> (#[trigger] pending[q]).path == root || folder_issued_before(
                batches,
                batches.len() as int,
                pending[q].path,
            ),
    ensures
        parents_first(root, batches.push(plan.requests)),
        forall|q: int|
            0 <= q < (pending.skip(1) + plan.folders).len() ==> (#[trigger] (pending.skip(1)
                + plan.folders)[q]).path == root || folder_issued_before(
                batches.push(plan.requests),
                batches.push(plan.requests).len() as int,
                (pending.skip(1) + plan.folders)[q].path,
            ),
{
    let prefix = pending[0].path;
    let level = pending[0].entries;
    let es = split_entries(level);
    let k = batches.len() as int;
    let after = batches.push(plan.requests);
    let queue = pending.skip(1) + plan.folders;
    lemma_level_structure(prefix, es, docs, group_bases(es).len() as int, plan);
    lemma_folders_stay_issued(batches, plan.requests);
    // The requests of the new batch stand directly below the planned folder.
    assert forall|r: int| 0 <= r < after[k].len() implies ({
        let parent = parent_path((#[trigger] after[k][r]).path);
        parent == root || folder_issued_before(after, k, parent)
    }) by {
        let req = plan.requests[r];
        assert(request_of_level(prefix, es, req));
        let g = choose|g: int|
            0 <= g < group_bases(es).len() && req.path == child_path(
                prefix,
                #[trigger] group_bases(es)[g],
            );
        lemma_group_base_is_entry_base(es, g);
        let w = choose|w: int| 0 <= w < es.len() && es[w].base == group_bases(es)[g];
        assert(es[w].base == head_segment(level[w].rest));
        lemma_slash_pos(level[w].rest);
        lemma_parent_of_child(prefix, group_bases(es)[g]);
    }
    assert(parents_first(root, after)) by {
        assert forall|b: int, r: int| 0 <= b < after.len() && 0 <= r < after[b].len() implies ({
            let parent = parent_path((#[trigger] after[b][r]).path);
            parent == root || folder_issued_before(after, b, parent)
        }) by {
            if b < k {
                assert(after[b][r] == batches[b][r]);
            }
        }
    }
    // Folders that queue up were requested in the new batch.
    assert forall|q: int| 0 <= q < queue.len() implies (#[trigger] queue[q]).path == root
        || folder_issued_before(after, after.len() as int, queue[q].path) by {
        if q < pending.len() - 1 {
            assert(queue[q] == pending[q + 1]);
        } else {
            let f = plan.folders[q - (pending.len() - 1)];
            assert(queue[q] == f);
            assert(folder_among(plan.requests, f.path));
            let j = choose|j: int|
                0 <= j < plan.requests.len() && (#[trigger] plan.requests[j]) == (RequestView {
                    item_type: ItemType::Folder,
                    path: f.path,
                    title: plan.requests[j].title,
                });
            assert(after[k][j] == plan.requests[j]);
        }
    }
}

/// Planning a level keeps the entries pointing at documents.
pub proof fn lemma_level_keeps_entries(
    docs: Seq<DocumentView>,
    pending: Seq<PendingView>,
    plan: LevelView,
)
    requires
        pending.len() > 0,
        level_outcome(pending[0].path, pending[0].entries, docs) == Ok::<LevelView, SyncErrorView>(
            plan,
        ),
        forall|q: int, i: int|
            0 <= q < pending.len() && 0 <= i < pending[q].entries.len() ==> 0 <= (
            #[trigger] pending[q].entries[i]).doc < docs.len(),
    ensures
        forall|q: int, i: int|
            0 <= q < (pending.skip(1) + plan.folders).len() && 0 <= i < (pending.skip(1)
                + plan.folders)[q].entries.len() ==> 0 <= (#[trigger] (pending.skip(1)
                + plan.folders)[q].entries[i]).doc < docs.len(),
{
    let prefix = pending[0].path;
    let level = pending[0].entries;
    let es = split_entries(level);
    let queue = pending.skip(1) + plan.folders;
    lemma_level_structure(prefix, es, docs, group_bases(es).len() as int, plan);
    assert forall|q: int, i: int| 0 <= q < queue.len() && 0 <= i < queue[q].entries.len() implies 0
        <= (#[trigger] queue[q].entries[i]).doc < docs.len() by {
        if q < pending.len() - 1 {
            assert(queue[q] == pending[q + 1]);
        } else {
            let f = plan.folders[q - (pending.len() - 1)];
            assert(queue[q] == f);
            assert(group_of_level(es, f.entries));
            let g = choose|g: int|
                0 <= g < group_bases(es).len() && f.entries == members(
                    es,
                    #[trigger] group_bases(es)[g],
                );
            lemma_member_is_entry(es, group_bases(es)[g], i);
            let w = choose|w: int| 0 <= w < es.len() && es[w] == f.entries[i];
            assert(es[w].doc == level[w].doc);
            assert(pending[0].entries[w] == level[w]);
        }
    }
}

/// A folder that was requested stays requested when a batch is added.
pub proof fn lemma_folders_stay_issued(batches: Seq<Seq<RequestView>>, batch: Seq<RequestView>)
    ensures
        forall|b: int, path: Seq<char>|
            #![trigger folder_issued_before(batches.push(batch), b, path)]
            folder_issued_before(batches, b, path) ==> folder_issued_before(
                batches.push(batch),
                b,
                path,
            ),
        forall|b: int, path: Seq<char>|
            #![trigger folder_issued_before(batches, b, path)]
            folder_issued_before(batches, b, path) ==> folder_issued_before(
                batches.push(batch),
                b,
                path,
            ),
{
    let after = batches.push(batch);
    assert forall|b: int, path: Seq<char>| folder_issued_before(batches, b, path) implies folder_issued_before(
        after,
        b,
        path,
    ) by {
        let (x, y) = choose|x: int, y: int|
            0 <= x < b && x < batches.len() && 0 <= y < batches[x].len() && (
            #[trigger] batches[x][y]) == (RequestView {
                item_type: ItemType::Folder,
                path,
                title: batches[x][y].title,
            });
        assert(after[x][y] == batches[x][y]);
    }
}

/// The state of a synchronization run.
pub struct TreeSynchronizer {
    /// The remote path of the synchronization root.
    pub root: String,
    /// The documents to create, in the order in which they were handed in.
    pub documents: Vec<TIMDocument>,
    /// The folders whose children are still to be planned, first in, first out.
    pub queue: Vec<PendingFolder>,
    /// The batches of creations handed out so far.
    pub issued: Vec<Vec<CreateRequest>>,
    /// The identifiers of the created items, by their path relative to the root.
    pub item_ids: StringHashMap<u64>,
}

/// The batches of requests as contracts see them.
pub open spec fn batch_views(issued: Seq<Vec<CreateRequest>>) -> Seq<Seq<RequestView>> {
    issued.map_values(|b: Vec<CreateRequest>| request_views(b@))
}

/// The entries that the documents start with: nothing split off yet, all of
/// the path still to go.
pub open spec fn initial_entries(docs: Seq<DocumentView>) -> Seq<EntryView> {
    Seq::new(docs.len(), |i: int| EntryView { base: Seq::empty(), rest: docs[i].path, doc: i })
}

impl TreeSynchronizer {
    /// The pending folders as contracts see them.
    pub open spec fn pending(&self) -> Seq<PendingView> {
        pending_views(self.queue@)
    }

    /// The batches handed out so far as contracts see them.
    pub open spec fn batches(&self) -> Seq<Seq<RequestView>> {
        batch_views(self.issued@)
    }

    /// The documents as contracts see them.
    pub open spec fn docs(&self) -> Seq<DocumentView> {
        document_views(self.documents@)
    }

    /// The state is consistent: entries point at documents, every pending
    /// folder is the root or was requested, no request came before the
    /// request for its parent folder, no path was requested twice, and no
    /// document is lost.
    pub open spec fn wf(&self) -> bool {
        state_wf(self.root@, self.docs(), self.batches(), self.pending())
    }

    /// Starts a run below `root`: one pending level, the root, that holds every document.
    pub fn new(root: String, documents: Vec<TIMDocument>) -> (s: TreeSynchronizer)
        ensures
            s.wf(),
            s.root@ == root@,
            s.documents == documents,
            s.pending() == seq![
                PendingView { path: root@, entries: initial_entries(document_views(documents@)) },
            ],
            s.batches() == Seq::<Seq<RequestView>>::empty(),
            s.item_ids@ == Map::<Seq<char>, u64>::empty(),
    {
        let mut entries: Vec<ItemEntry> = Vec::new();
        let mut i: usize = 0;
        while i < documents.len()
            invariant
                i <= documents.len(),
                entries.len() == i,
                forall|k: int|
                    0 <= k < i ==> (#[trigger] entries@[k])@ == (EntryView {
                        base: Seq::empty(),
                        rest: documents@[k]@.path,
                        doc: k,
                    }),
            decreases documents.len() - i,
        {
            entries.push(
                ItemEntry { path_base: String::new(), path_rest: documents[i].path.clone(), doc: i },
            );
            i += 1;
        }
        assert(entry_views(entries@) =~= initial_entries(document_views(documents@)));
        let mut queue: Vec<PendingFolder> = Vec::new();
        queue.push(PendingFolder { path: root.clone(), entries });
        let s = TreeSynchronizer {
            root,
            documents,
            queue,
            issued: Vec::new(),
            item_ids: StringHashMap::new(),
        };
        assert(s.pending() =~= seq![
            PendingView { path: root@, entries: initial_entries(document_views(documents@)) },
        ]);
        assert(s.batches() =~= Seq::<Seq<RequestView>>::empty());
        assert forall|i: int|
            0 <= i < s.docs().len() && proper_path((#[trigger] s.docs()[i]).path) implies document_awaits(
            s.pending(),
            child_path(s.root@, s.docs()[i].path),
            i,
        ) by {
            assert(s.pending()[0].entries[i].doc == i);
        }
        s
    }

    /// Starts a run below the root that was looked up with the outcome
    /// `found`. There is a run only where the lookup found a folder; it
    /// starts with nothing requested. Where the root is missing or is a
    /// document, nothing is ever requested.
    pub fn begin(found: RootLookup, host: &str, root: String, documents: Vec<TIMDocument>) -> (r:
        Result<TreeSynchronizer, SyncError>)
        ensures
            match found {
                RootLookup::Found(ItemType::Folder) => r is Ok && r->Ok_0.wf() && r->Ok_0.root@
                    == root@ && r->Ok_0.documents == documents && r->Ok_0.pending() == seq![
                    PendingView {
                        path: root@,
                        entries: initial_entries(document_views(documents@)),
                    },
                ] && r->Ok_0.batches() == Seq::<Seq<RequestView>>::empty() && r->Ok_0.item_ids@
                    == Map::<Seq<char>, u64>::empty(),
                RootLookup::Missing => r is Err && r->Err_0@
                    == SyncErrorView::SyncTargetDoesNotExist(root_url(host@, root@)),
                RootLookup::Found(ItemType::Document) => r is Err && r->Err_0@
                    == SyncErrorView::SyncTargetNotAFolder(root_url(host@, root@)),
            },
    {
        match check_sync_root(found, host, root.as_str()) {
            Ok(()) => Ok(TreeSynchronizer::new(root, documents)),
            Err(e) => Err(e),
        }
    }

    /// Whether every level has been planned.
    pub fn is_done(&self) -> (r: bool)
        ensures
            r == (self.pending().len() == 0),
    {
        self.queue.len() == 0
    }

    /// Plans the next level. With nothing pending the run is planned out and
    /// the answer is `None`. Otherwise the oldest pending folder is planned:
    /// on a conflict the state stays as it was; else the batch of creations is
    /// handed out and logged, and the folders of the level queue up behind
    /// those already pending. All of a batch is to be created before the
    /// next level is asked for.
    pub fn next_level(&mut self) -> (r: Result<Option<Vec<CreateRequest>>, SyncError>)
        requires
            old(self).wf(),
        ensures
            final(self).wf(),
            final(self).root == old(self).root,
            final(self).documents == old(self).documents,
            final(self).item_ids == old(self).item_ids,
            old(self).pending().len() == 0 ==> r == Ok::<Option<Vec<CreateRequest>>, SyncError>(None)
                && *final(self) == *old(self),
            old(self).pending().len() > 0 ==> match level_outcome(
                old(self).pending()[0].path,
                old(self).pending()[0].entries,
                old(self).docs(),
            ) {
                Err(e) => r is Err && r->Err_0@ == e && *final(self) == *old(self),
                Ok(plan) => r is Ok && r->Ok_0 is Some && request_views(r->Ok_0->Some_0@)
                    == plan.requests && final(self).pending() == old(self).pending().skip(1)
                    + plan.folders && final(self).batches() == old(self).batches().push(
                    plan.requests,
                ),
            },
    {
        if self.queue.len() == 0 {
            return Ok(None);
        }
        let ghost prefix = self.pending()[0].path;
        let ghost level = self.pending()[0].entries;
        let ghost es = split_entries(level);
        let ghost old_pending = self.pending();
        let ghost old_batches = self.batches();
        let ghost docs = self.docs();
        assert(self.pending()[0] == self.queue@[0]@);
        assert forall|i: int| 0 <= i < self.queue@[0].entries.len() implies (
        #[trigger] self.queue@[0].entries@[i]).doc < self.documents.len() by {
            assert(self.pending()[0].entries[i] == self.queue@[0].entries@[i]@);
        }
        let planned = plan_level(self.queue[0].path.as_str(), &self.queue[0].entries, &self.documents);
        match planned {
            Err(e) => Err(e),
            Ok(plan) => {
                let LevelPlan { requests, folders } = plan;
                let ghost lv = LevelView {
                    requests: request_views(requests@),
                    folders: pending_views(folders@),
                };
                let mut folders = folders;
                let mut log: Vec<CreateRequest> = Vec::new();
                let mut i: usize = 0;
                while i < requests.len()
                    invariant
                        i <= requests.len(),
                        log.len() == i,
                        forall|k: int| 0 <= k < i ==> (#[trigger] log@[k])@ == requests@[k]@,
                    decreases requests.len() - i,
                {
                    log.push(
                        CreateRequest {
                            item_type: requests[i].item_type,
                            path: requests[i].path.clone(),
                            title: requests[i].title.clone(),
                        },
                    );
                    i += 1;
                }
                assert(request_views(log@) =~= lv.requests);
                let _ = self.queue.remove(0);
                self.queue.append(&mut folders);
                self.issued.push(log);
                proof {
                    assert(self.pending() =~= old_pending.skip(1) + lv.folders);
                    assert(self.batches() =~= old_batches.push(lv.requests));
                    assert(self.docs() == docs);
                    lemma_level_keeps_state(self.root@, docs, old_batches, old_pending, lv);
                }
                Ok(Some(requests))
            },
        }
    }

    /// Records the identifier that the remote store gave to the item created
    /// at `path`, under the item's path relative to the root.
    pub fn record_created(&mut self, path: &str, id: u64)
        requires
            path@.len() > old(self).root@.len(),
        ensures
            final(self).item_ids@ == old(self).item_ids@.insert(
                path@.skip(old(self).root@.len() as int + 1),
                id,
            ),
            final(self).root == old(self).root,
            final(self).documents == old(self).documents,
            final(self).queue == old(self).queue,
            final(self).issued == old(self).issued,
            old(self).wf() ==> final(self).wf(),
    {
        let chars = str_chars(path);
        let root_len = str_chars(self.root.as_str()).len();
        assert(root_len < chars.len());
        let skip = root_len + 1;
        let key = chars_string(&chars, skip, chars.len());
        assert(key@ == path@.skip(skip as int));
        self.item_ids.insert(key, id);
        proof {
            assert(self.pending() == old(self).pending());
            assert(self.batches() == old(self).batches());
            if old(self).wf() {
                assert(self.wf());
            }
        }
    }

    /// The first document whose path has no recorded identifier, if any.
    pub fn missing_id(&self) -> (r: Option<usize>)
        ensures
            match r {
                Some(i) => i < self.documents.len() && !self.item_ids@.contains_key(
                    self.documents@[i as int]@.path,
                ),
                None => forall|i: int|
                    0 <= i < self.documents.len() ==> self.item_ids@.contains_key(
                        (#[trigger] self.documents@[i])@.path,
                    ),
            },
    {
        let mut i: usize = 0;
        while i < self.documents.len()
            invariant
                i <= self.documents.len(),
                forall|k: int|
                    0 <= k < i ==> self.item_ids@.contains_key((#[trigger] self.documents@[k])@.path),
            decreases self.documents.len() - i,
        {
            if !self.item_ids.contains_key(self.documents[i].path.as_str()) {
                return Some(i);
            }
            i += 1;
        }
        None
    }

    /// Ends the run: the documents as they were handed in, each with the
    /// identifier recorded for its path.
    pub fn finish(self) -> (out: Vec<TIMDocument>)
        requires
            forall|i: int|
                0 <= i < self.documents.len() ==> self.item_ids@.contains_key(
                    (#[trigger] self.documents@[i])@.path,
                ),
        ensures
            out.len() == self.documents.len(),
            forall|i: int|
                0 <= i < out.len() ==> (#[trigger] out@[i])@ == (DocumentView {
                    id: Some(self.item_ids@[self.documents@[i]@.path]),
                    ..self.documents@[i]@
                }),
    {
        let mut out: Vec<TIMDocument> = Vec::new();
        let mut i: usize = 0;
        while i < self.documents.len()
            invariant
                i <= self.documents.len(),
                out.len() == i,
                forall|k: int|
                    0 <= k < self.documents.len() ==> self.item_ids@.contains_key(
                        (#[trigger] self.documents@[k])@.path,
                    ),
                forall|k: int|
                    0 <= k < i ==> (#[trigger] out@[k])@ == (DocumentView {
                        id: Some(self.item_ids@[self.documents@[k]@.path]),
                        ..self.documents@[k]@
                    }),
            decreases self.documents.len() - i,
        {
            let doc = &self.documents[i];
            let id = match self.item_ids.get(doc.path.as_str()) {
                Some(id) => Some(*id),
                None => None,
            };
            out.push(
                TIMDocument {
                    processor: doc.processor,
                    title: doc.title.clone(),
                    path: doc.path.clone(),
                    id,
                },
            );
            i += 1;
        }
        out
    }
}

/// Once every level is planned, every document whose
/// path names a document has been requested as a document at its path
/// below the root. By the consistency of the state it was requested once,
/// and after the folder that holds it.
pub proof fn lemma_every_document_is_requested(s: TreeSynchronizer, i: int)
    requires
        s.wf(),
        s.pending().len() == 0,
        0 <= i < s.docs().len(),
        proper_path(s.docs()[i].path),
    ensures
        document_requested(s.batches(), child_path(s.root@, s.docs()[i].path)),
{
}

/// Of a run that is planned out: the root itself was never asked for, every
/// request lying below it; every document whose path names a document was
/// asked for, as a document, at its path below the root; no path was asked
/// for twice; and every item was asked for after the folder that holds it,
/// unless that folder is the root.
pub proof fn lemma_planned_run(s: TreeSynchronizer)
    requires
        s.wf(),
        s.pending().len() == 0,
    ensures
        forall|k: int, r: int|
            0 <= k < s.batches().len() && 0 <= r < s.batches()[k].len() ==> (
            #[trigger] s.batches()[k][r]).path != s.root@,
        forall|i: int|
            0 <= i < s.docs().len() && proper_path((#[trigger] s.docs()[i]).path)
                ==> document_requested(s.batches(), child_path(s.root@, s.docs()[i].path)),
        request_paths_distinct(s.batches()),
        parents_first(s.root@, s.batches()),
{
    assert forall|k: int, r: int|
        0 <= k < s.batches().len() && 0 <= r < s.batches()[k].len() implies (
    #[trigger] s.batches()[k][r]).path != s.root@ by {
        assert(s.batches()[k][r].path.len() > s.root@.len());
    }
}

/// What a lookup of the synchronization root found.
#[derive(Clone, Copy, Debug, PartialEq, Eq, Structural)]
pub enum RootLookup {
    /// Nothing exists at the root's path.
    Missing,
    /// An item of this kind exists there.
    Found(ItemType),
}

/// The address of the synchronization root: the host, a `/`, the root's path.
pub open spec fn root_url(host: Seq<char>, folder_root: Seq<char>) -> Seq<char> {
    child_path(host, folder_root)
}

/// Checks the synchronization root before anything is created: it must exist
/// and be a folder.
pub fn check_sync_root(found: RootLookup, host: &str, folder_root: &str) -> (r: Result<(), SyncError>)
    ensures
        match found {
            RootLookup::Missing => r is Err && r->Err_0@ == SyncErrorView::SyncTargetDoesNotExist(
                root_url(host@, folder_root@),
            ),
            RootLookup::Found(ItemType::Folder) => r is Ok,
            RootLookup::Found(ItemType::Document) => r is Err && r->Err_0@
                == SyncErrorView::SyncTargetNotAFolder(root_url(host@, folder_root@)),
        },
{
    match found {
        RootLookup::Missing => Err(SyncError::SyncTargetDoesNotExist(join_path(host, folder_root))),
        RootLookup::Found(ItemType::Folder) => Ok(()),
        RootLookup::Found(ItemType::Document) => Err(
            SyncError::SyncTargetNotAFolder(join_path(host, folder_root)),
        ),
    }
}

} // verus!
