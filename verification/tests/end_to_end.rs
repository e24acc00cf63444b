use timsync::markdown_processor::DocumentSettings;
use timsync::pipeline::SyncPipeline;
use timsync::prepared_document::{content_action, ContentAction};
use timsync::processors::{FileProcessor, FrontMatter};
use timsync::project_files::{GeneralProjectFileMetadata, ProjectFile};
use timsync::sync::{check_sync_root, RootLookup, TreeSynchronizer};
use timsync::tree::ItemType;
use timsync::upload_files::UploadFiles;

fn front_matter(title: Option<&str>) -> FrontMatter {
    FrontMatter {
        document: DocumentSettings { title: title.map(|t| t.to_string()), tim_path: None },
        general: GeneralProjectFileMetadata { processor: None, uid: None },
        task: None,
    }
}

#[test]
fn project_with_index_and_guide_is_synchronized() {
    let root = "kurssit/tie";
    assert!(check_sync_root(RootLookup::Found(ItemType::Folder), "https://tim.example", root).is_ok());

    let mut pipeline = SyncPipeline::new("/proj", "default");
    let index = ProjectFile::try_from_path(
        "/proj/index.md".to_string(),
        "---\ntitle: Home\n---\n# Welcome\n".to_string(),
    )
    .unwrap();
    let guide = ProjectFile::try_from_path(
        "/proj/docs/guide.md".to_string(),
        "See [other](./other.md), [home](../index.md) and ![logo](./logo.png).\n".to_string(),
    )
    .unwrap();
    pipeline.add_file(index, front_matter(Some("Home"))).unwrap();
    pipeline.add_file(guide, front_matter(None)).unwrap();

    let mut sync = TreeSynchronizer::begin(
        RootLookup::Found(ItemType::Folder),
        "https://tim.example",
        root.to_string(),
        pipeline.get_tim_documents(),
    )
    .unwrap();
    let mut created: Vec<(ItemType, String, String)> = Vec::new();
    let mut next_id = 100;
    while let Some(batch) = sync.next_level().unwrap() {
        for request in &batch {
            created.push((request.item_type, request.path.clone(), request.title.clone()));
            sync.record_created(&request.path, next_id);
            next_id += 1;
        }
    }
    assert_eq!(
        created,
        vec![
            (ItemType::Document, "kurssit/tie/index".to_string(), "Home".to_string()),
            (ItemType::Folder, "kurssit/tie/docs".to_string(), "docs".to_string()),
            (ItemType::Document, "kurssit/tie/docs/guide".to_string(), "guide".to_string()),
        ]
    );
    assert_eq!(sync.missing_id(), None);
    let documents = sync.finish();
    assert_eq!(documents[0].id, Some(100));
    assert_eq!(documents[1].id, Some(102));

    let markdown = match &pipeline.processors[0] {
        FileProcessor::Markdown(p) => p,
        other => panic!("unexpected processor: {:?}", other),
    };
    let guide_doc = &documents[1];
    let input = markdown.render_input(guide_doc).unwrap();
    assert_eq!(input.doc_id, 102);
    let rendered = input.template;
    let mut planned = markdown.plan_document_links(guide_doc, &rendered, root).unwrap();
    planned[2].asset = Some(b"hello world".to_vec());
    let prepared = markdown
        .render_tim_document(guide_doc, &rendered, UploadFiles::new(), &planned, root)
        .unwrap();
    assert_eq!(
        prepared.markdown,
        "See [other](/view/kurssit/tie/docs/other), [home](/view/kurssit/tie/index) and ![logo](/files/kurssit/tie/docs/guide/2aae6c35c94fcfb415dbe95f408b9ce91ee846ed.png).\n"
    );
    assert_eq!(
        prepared.upload_files.get("/proj/docs/logo.png").unwrap(),
        "2aae6c35c94fcfb415dbe95f408b9ce91ee846ed.png"
    );

    let uploaded = match content_action(root, &guide_doc.path, &guide_doc.title, prepared, "") {
        ContentAction::Upload { path, markdown, title, files } => {
            assert_eq!(path, "kurssit/tie/docs/guide");
            assert_eq!(title, "guide");
            assert_eq!(files.get("/proj/docs/logo.png").unwrap(), "2aae6c35c94fcfb415dbe95f408b9ce91ee846ed.png");
            markdown
        }
        ContentAction::Skip => panic!("the first run must upload"),
    };
    let again = markdown
        .render_tim_document(guide_doc, &rendered, UploadFiles::new(), &planned, root)
        .unwrap();
    assert!(matches!(content_action(root, &guide_doc.path, &guide_doc.title, again, &uploaded), ContentAction::Skip));
}
