use timsync::processors::FileProcessorType;
use timsync::sync::{check_sync_root, RootLookup, TreeSynchronizer};
use timsync::tim_document::TIMDocument;
use timsync::tree::{plan_level, split_path, CreateRequest, ItemEntry, ItemType, SyncError};

fn doc(path: &str, title: &str) -> TIMDocument {
    TIMDocument::new(FileProcessorType::Markdown, title.to_string(), path.to_string())
}

fn summary(batch: &[CreateRequest]) -> Vec<(ItemType, String, String)> {
    batch.iter().map(|r| (r.item_type, r.path.clone(), r.title.clone())).collect()
}

#[test]
fn split_path_at_first_slash() {
    assert_eq!(split_path("a/b/c"), ("a".to_string(), "b/c".to_string()));
    assert_eq!(split_path("a"), ("a".to_string(), "".to_string()));
    assert_eq!(split_path("a/"), ("a".to_string(), "".to_string()));
    assert_eq!(split_path(""), ("".to_string(), "".to_string()));
    assert_eq!(split_path("/x"), ("".to_string(), "x".to_string()));
}

#[test]
fn folder_is_created_before_its_documents() {
    let docs = vec![doc("a/b", "B"), doc("a/c", "C")];
    let mut sync = TreeSynchronizer::new("root".to_string(), docs);

    let first = sync.next_level().unwrap().unwrap();
    assert_eq!(summary(&first), vec![(ItemType::Folder, "root/a".to_string(), "a".to_string())]);
    sync.record_created("root/a", 10);

    let second = sync.next_level().unwrap().unwrap();
    assert_eq!(
        summary(&second),
        vec![
            (ItemType::Document, "root/a/b".to_string(), "B".to_string()),
            (ItemType::Document, "root/a/c".to_string(), "C".to_string()),
        ]
    );
    sync.record_created("root/a/b", 11);
    sync.record_created("root/a/c", 12);

    assert!(sync.next_level().unwrap().is_none());
    assert!(sync.is_done());
    assert_eq!(sync.missing_id(), None);
    let out = sync.finish();
    assert_eq!(out.len(), 2);
    assert_eq!(out[0].path, "a/b");
    assert_eq!(out[0].id, Some(11));
    assert_eq!(out[1].path, "a/c");
    assert_eq!(out[1].id, Some(12));
    assert_ne!(out[0].id, out[1].id);
}

#[test]
fn two_documents_with_one_path_conflict_by_name() {
    let docs = vec![doc("x", "X1"), doc("x", "X2")];
    let mut sync = TreeSynchronizer::new("root".to_string(), docs);
    match sync.next_level() {
        Err(SyncError::ItemNameConflict(path)) => assert_eq!(path, "x"),
        other => panic!("unexpected outcome: {:?}", other),
    }
}

#[test]
fn document_and_folder_with_one_path_conflict_by_type() {
    let docs = vec![doc("x", "X"), doc("x/y", "Y")];
    let mut sync = TreeSynchronizer::new("root".to_string(), docs);
    match sync.next_level() {
        Err(SyncError::ItemTypeConflict(path)) => assert_eq!(path, "x"),
        other => panic!("unexpected outcome: {:?}", other),
    }
}

#[test]
fn document_named_like_a_folder_of_other_documents_conflicts() {
    let docs = vec![doc("a", "A"), doc("a/b", "B"), doc("a/c", "C")];
    let mut sync = TreeSynchronizer::new("root".to_string(), docs);
    assert!(matches!(sync.next_level(), Err(SyncError::ItemTypeConflict(_))));
}

#[test]
fn conflict_below_the_first_level_is_found_at_its_level() {
    let docs = vec![doc("a/b", "B1"), doc("c", "C"), doc("a/b", "B2")];
    let mut sync = TreeSynchronizer::new("r".to_string(), docs);
    let first = sync.next_level().unwrap().unwrap();
    assert_eq!(
        summary(&first),
        vec![
            (ItemType::Folder, "r/a".to_string(), "a".to_string()),
            (ItemType::Document, "r/c".to_string(), "C".to_string()),
        ]
    );
    match sync.next_level() {
        Err(SyncError::ItemNameConflict(path)) => assert_eq!(path, "a/b"),
        other => panic!("unexpected outcome: {:?}", other),
    }
}

#[test]
fn levels_are_planned_breadth_first() {
    let docs = vec![doc("a/b/c", "C"), doc("d/e", "E"), doc("f", "F")];
    let mut sync = TreeSynchronizer::new("r".to_string(), docs);
    let l1 = sync.next_level().unwrap().unwrap();
    assert_eq!(
        summary(&l1),
        vec![
            (ItemType::Folder, "r/a".to_string(), "a".to_string()),
            (ItemType::Folder, "r/d".to_string(), "d".to_string()),
            (ItemType::Document, "r/f".to_string(), "F".to_string()),
        ]
    );
    let l2 = sync.next_level().unwrap().unwrap();
    assert_eq!(summary(&l2), vec![(ItemType::Folder, "r/a/b".to_string(), "b".to_string())]);
    let l3 = sync.next_level().unwrap().unwrap();
    assert_eq!(summary(&l3), vec![(ItemType::Document, "r/d/e".to_string(), "E".to_string())]);
    let l4 = sync.next_level().unwrap().unwrap();
    assert_eq!(summary(&l4), vec![(ItemType::Document, "r/a/b/c".to_string(), "C".to_string())]);
    assert!(sync.next_level().unwrap().is_none());
    assert_eq!(sync.issued.len(), 4);
}

#[test]
fn no_documents_make_one_empty_level() {
    let mut sync = TreeSynchronizer::new("r".to_string(), Vec::new());
    assert!(!sync.is_done());
    assert!(sync.next_level().unwrap().unwrap().is_empty());
    assert!(sync.next_level().unwrap().is_none());
    assert!(sync.finish().is_empty());
}

#[test]
fn missing_identifier_is_reported() {
    let docs = vec![doc("a", "A"), doc("b", "B")];
    let mut sync = TreeSynchronizer::new("r".to_string(), docs);
    let _ = sync.next_level().unwrap().unwrap();
    sync.record_created("r/a", 1);
    assert_eq!(sync.missing_id(), Some(1));
    sync.record_created("r/b", 2);
    assert_eq!(sync.missing_id(), None);
}

#[test]
fn plan_level_groups_in_order_of_first_appearance() {
    let docs = vec![doc("z/1", "One"), doc("a", "A"), doc("z/2", "Two")];
    let entries: Vec<ItemEntry> = docs
        .iter()
        .enumerate()
        .map(|(i, d)| ItemEntry { path_base: String::new(), path_rest: d.path.clone(), doc: i })
        .collect();
    let plan = plan_level("top", &entries, &docs).unwrap();
    assert_eq!(
        summary(&plan.requests),
        vec![
            (ItemType::Folder, "top/z".to_string(), "z".to_string()),
            (ItemType::Document, "top/a".to_string(), "A".to_string()),
        ]
    );
    assert_eq!(plan.folders.len(), 1);
    assert_eq!(plan.folders[0].path, "top/z");
    let rests: Vec<&str> = plan.folders[0].entries.iter().map(|e| e.path_rest.as_str()).collect();
    assert_eq!(rests, vec!["1", "2"]);
}

#[test]
fn sync_root_must_exist_and_be_a_folder() {
    assert!(check_sync_root(RootLookup::Found(ItemType::Folder), "https://h", "k/c").is_ok());
    match check_sync_root(RootLookup::Missing, "https://h", "k/c") {
        Err(SyncError::SyncTargetDoesNotExist(url)) => assert_eq!(url, "https://h/k/c"),
        other => panic!("unexpected outcome: {:?}", other),
    }
    match check_sync_root(RootLookup::Found(ItemType::Document), "https://h", "k/c") {
        Err(SyncError::SyncTargetNotAFolder(url)) => assert_eq!(url, "https://h/k/c"),
        other => panic!("unexpected outcome: {:?}", other),
    }
}

#[test]
fn path_that_ends_in_a_slash_gets_no_identifier() {
    let docs = vec![doc("a/", "A")];
    let mut sync = TreeSynchronizer::new("r".to_string(), docs);
    let batch = sync.next_level().unwrap().unwrap();
    assert_eq!(summary(&batch), vec![(ItemType::Document, "r/a".to_string(), "A".to_string())]);
    sync.record_created("r/a", 1);
    assert!(sync.next_level().unwrap().is_none());
    assert_eq!(sync.missing_id(), Some(0));
}

#[test]
fn every_document_is_requested_once_at_its_path() {
    let paths = ["a/b/c", "a/b/d", "a/e", "f", "g/h"];
    let docs: Vec<_> = paths.iter().map(|p| doc(p, p)).collect();
    let mut sync = TreeSynchronizer::new("root".to_string(), docs);
    let mut requested: Vec<(ItemType, String)> = Vec::new();
    while let Some(batch) = sync.next_level().unwrap() {
        for request in &batch {
            let parent = &request.path[..request.path.rfind('/').unwrap()];
            assert!(
                parent == "root"
                    || requested.iter().any(|(t, p)| *t == ItemType::Folder && p == parent),
                "{} is requested before its folder",
                request.path
            );
            assert!(!requested.iter().any(|(_, p)| p == &request.path));
            requested.push((request.item_type, request.path.clone()));
        }
    }
    for p in paths {
        let full = format!("root/{}", p);
        assert_eq!(requested.iter().filter(|(t, q)| *t == ItemType::Document && *q == full).count(), 1);
    }
    let folders: Vec<&str> =
        requested.iter().filter(|(t, _)| *t == ItemType::Folder).map(|(_, p)| p.as_str()).collect();
    assert_eq!(folders, vec!["root/a", "root/g", "root/a/b"]);
}

#[test]
fn a_run_begins_only_below_a_folder() {
    let docs = vec![TIMDocument::new(FileProcessorType::Markdown, "A".to_string(), "a".to_string())];
    match TreeSynchronizer::begin(RootLookup::Missing, "https://h", "k/c".to_string(), docs) {
        Err(SyncError::SyncTargetDoesNotExist(url)) => assert_eq!(url, "https://h/k/c"),
        _ => panic!("there is no run below a missing root"),
    }
    let docs = vec![TIMDocument::new(FileProcessorType::Markdown, "A".to_string(), "a".to_string())];
    match TreeSynchronizer::begin(RootLookup::Found(ItemType::Document), "https://h", "k/c".to_string(), docs) {
        Err(SyncError::SyncTargetNotAFolder(url)) => assert_eq!(url, "https://h/k/c"),
        _ => panic!("there is no run below a document"),
    }
    let docs = vec![TIMDocument::new(FileProcessorType::Markdown, "A".to_string(), "a".to_string())];
    let mut sync =
        TreeSynchronizer::begin(RootLookup::Found(ItemType::Folder), "https://h", "k/c".to_string(), docs).unwrap();
    assert!(sync.issued.is_empty());
    let batch = sync.next_level().unwrap().unwrap();
    assert_eq!(batch.len(), 1);
    assert_eq!(batch[0].path, "k/c/a");
    assert!(sync.next_level().unwrap().is_none());
    for batch in &sync.issued {
        for request in batch {
            assert_ne!(request.path, "k/c");
            assert!(request.path.starts_with("k/c/"));
        }
    }
}
