use timsync::config::{SyncConfig, SyncTarget, CONFIG_FILE_NAME, CONFIG_FOLDER, DEFAULT_SYNC_TARGET_HOST};
use timsync::global_ctx::{FrozenContext, GlobalContext, IdentifiedDocument, ProcessorContext};
use timsync::helpers::{
    area_block, area_name, docsettings_block, file_helper, ref_area_helper, resolve_full_file_path,
    task_helper, task_id_helper, url_for_helper, HelperError,
};
use timsync::ignore_file::IgnoreFile;
use timsync::json::{JsonMember, JsonValue};
use timsync::keyed::Keyed;
use timsync::numbers::{parse_u64, to_decimal};
use timsync::pipeline::{SyncOpts, SyncPipeline, WriteOutput};
use timsync::processors::{FileProcessor, FileProcessorType, FrontMatter};
use timsync::style_theme_processor::StyleThemeProcessor;
use timsync::markdown_processor::DocumentSettings;
use timsync::project::Project;
use timsync::project_files::{GeneralProjectFileMetadata, ProjectFile};
use timsync::task_processor::{TaskProcessor, TaskSettings, TASKS_REF_MAP_KEY, TASKS_UID};
use timsync::tim_client::{
    create_or_update_item, hashed_par_id, item_type_text, par_id_of, process_markdown,
    random_par_id, upload_markdown, ItemInfo, ItemLookup, TimClientBuilder, TimClientErrors,
    UpsertAction,
};
use timsync::tim_document::TIMDocument;
use timsync::tree::{ItemType, SyncError};

fn target() -> SyncTarget {
    SyncTarget {
        host: "https://tim.example".to_string(),
        folder_root: "kurssit/tie".to_string(),
        username: "user".to_string(),
        password: "SECRET-REDACTED".to_string(),
    }
}

fn identified(uid: Option<&str>, path: &str, title: &str, id: u64) -> IdentifiedDocument {
    let mut document = TIMDocument::new(FileProcessorType::Markdown, title.to_string(), path.to_string());
    document.id = Some(id);
    IdentifiedDocument { uid: uid.map(|u| u.to_string()), document }
}

fn site() -> JsonValue {
    JsonValue::Object(vec![JsonMember {
        key: "title".to_string(),
        value: JsonValue::Text("My TIM page".to_string()),
    }])
}

fn context() -> FrozenContext {
    let mut ctx = GlobalContext::new(site());
    ctx.insert_documents(&vec![
        identified(Some("home"), "index", "Home", 7),
        identified(None, "docs/guide", "Guide", 8),
        identified(Some(TASKS_UID), "_project_tasks", "Project tasks", 9),
    ]);
    ctx.insert_target("https://tim.example", "kurssit/tie");
    ctx.extend(ProcessorContext {
        entries: vec![Keyed {
            key: TASKS_REF_MAP_KEY.to_string(),
            value: vec![Keyed { key: "task1".to_string(), value: "PAR1".to_string() }],
        }],
    });
    ctx.freeze()
}

#[test]
fn configuration_keeps_targets_by_name() {
    let mut config = SyncConfig::new();
    assert!(config.get_target("default").is_none());
    config.set_target("default", target());
    config.set_target("test", SyncTarget { folder_root: "sandbox".to_string(), ..target() });
    assert_eq!(config.get_target("default").unwrap().folder_root, "kurssit/tie");
    assert_eq!(config.get_target("test").unwrap().folder_root, "sandbox");
    config.set_target("default", SyncTarget { folder_root: "new/root".to_string(), ..target() });
    assert_eq!(config.get_target("default").unwrap().folder_root, "new/root");
    assert!(config.get_target("missing").is_none());
    assert_eq!(DEFAULT_SYNC_TARGET_HOST, "https://tim.jyu.fi");
    assert_eq!(CONFIG_FOLDER, ".timsync");
    assert_eq!(CONFIG_FILE_NAME, "config.toml");
    let project = Project::new("/proj".to_string(), config);
    assert_eq!(project.get_root_path(), "/proj");
}

#[test]
fn context_tells_of_documents_by_identifier() {
    let ctx = context();
    assert_eq!(ctx.get().docs.len(), 3);
    assert_eq!(ctx.get().docs[1].path, "docs/guide");
    let home = ctx.document("home").unwrap();
    assert_eq!((home.doc_id, home.path.as_str(), home.title.as_str()), (Some(7), "index", "Home"));
    assert!(ctx.document("guide").is_none());
    assert_eq!(ctx.get().host, "https://tim.example");
    assert_eq!(ctx.get().base_path, "kurssit/tie");
    assert_eq!(ctx.extra(TASKS_REF_MAP_KEY).unwrap().len(), 1);
    assert!(ctx.extra("style_themes").is_none());
}

#[test]
fn areas_are_marked_up() {
    assert_eq!(
        area_block("intro", false, "", "Hello\n", None),
        "#- {area=\"intro\"  }\n\n#-\nHello\n#- {area_end=\"intro\"}\n\n#-\n"
    );
    assert_eq!(
        area_block("more", true, ".box", "Button", Some("Hidden")),
        "#- {area=\"more\" collapse=\"true\" .box}\nButton#-\nHidden#- {area_end=\"more\"}\n\n#-\n"
    );
    assert_eq!(area_name(Some("given")), "given");
    let random = area_name(None);
    assert!(random.starts_with("area-"));
    assert_eq!(random.chars().count(), 13);
    assert_ne!(area_name(None), area_name(None));
}

#[test]
fn settings_and_references_are_marked_up() {
    assert_eq!(docsettings_block("a: 1"), "``` {settings=\"\"}\n\na: 1\n```\n\n");
    assert_eq!(ref_area_helper(1234, "intro"), "#- {rd=\"1234\" ra=\"intro\"}");
    assert_eq!(ref_area_helper(0, "x"), "#- {rd=\"0\" ra=\"x\"}");
}

#[test]
fn tasks_are_referred_to_through_the_context() {
    let ctx = context();
    assert_eq!(
        task_helper(&ctx, "task1").unwrap(),
        format!("#- {{ rd=\"9\" rp=\"PAR1\" id=\"{}\" }}\n#-\n", hashed_par_id(Some("task1")))
    );
    assert_eq!(task_id_helper(&ctx, "task1").unwrap(), "9.task1");
    match task_helper(&ctx, "nope") {
        Err(HelperError::UnknownTask(id)) => assert_eq!(id, "nope"),
        other => panic!("unexpected outcome: {:?}", other),
    }
    let bare = GlobalContext::new(JsonValue::Null).freeze();
    assert!(matches!(task_id_helper(&bare, "task1"), Err(HelperError::NoTasksRegistered)));
    let mut no_doc = GlobalContext::new(JsonValue::Null);
    no_doc.extend(ProcessorContext {
        entries: vec![Keyed { key: TASKS_REF_MAP_KEY.to_string(), value: Vec::new() }],
    });
    assert!(matches!(task_helper(&no_doc.freeze(), "t"), Err(HelperError::TaskDocumentMissing)));
}

#[test]
fn addresses_of_documents() {
    let ctx = context();
    assert_eq!(url_for_helper(&ctx, "home", None).unwrap(), "/view/kurssit/tie/index");
    assert_eq!(url_for_helper(&ctx, "home", Some("teacher")).unwrap(), "/teacher/kurssit/tie/index");
    assert_eq!(url_for_helper(&ctx, "home", Some("")).unwrap(), "kurssit/tie/index");
    match url_for_helper(&ctx, "ghost", None) {
        Err(HelperError::UnknownDocument(uid)) => assert_eq!(uid, "ghost"),
        other => panic!("unexpected outcome: {:?}", other),
    }
}

#[test]
fn files_are_named_by_content_and_addressed_below_the_document() {
    let ctx = context();
    let (url, name) = file_helper(&ctx, "docs/guide", "/proj/docs/data.tar.gz", b"hello world");
    assert_eq!(name, "2aae6c35c94fcfb415dbe95f408b9ce91ee846ed.tar.gz");
    assert_eq!(url, "/files/kurssit/tie/docs/guide/2aae6c35c94fcfb415dbe95f408b9ce91ee846ed.tar.gz");
}

#[test]
fn helper_paths_are_resolved() {
    assert_eq!(
        resolve_full_file_path(Some("docs/guide.md"), "img/logo.png", "/proj").unwrap(),
        "/proj/docs/img/logo.png"
    );
    assert_eq!(
        resolve_full_file_path(Some("docs/guide.md"), "../shared/./a.txt", "/proj").unwrap(),
        "/proj/shared/a.txt"
    );
    assert_eq!(resolve_full_file_path(None, "/assets/a.txt", "/proj").unwrap(), "/proj/assets/a.txt");
    assert_eq!(resolve_full_file_path(Some("x.md"), "//abs/a.txt", "/proj").unwrap(), "/abs/a.txt");
    assert!(matches!(
        resolve_full_file_path(None, "rel.txt", "/proj"),
        Err(HelperError::LocalFilePathNotSet)
    ));
    assert!(matches!(
        resolve_full_file_path(Some(""), "rel.txt", ""),
        Err(HelperError::NoParentDirectory)
    ));
}

#[test]
fn numbers_as_text() {
    assert_eq!(to_decimal(0), "0");
    assert_eq!(to_decimal(9), "9");
    assert_eq!(to_decimal(10), "10");
    assert_eq!(to_decimal(u64::MAX), "18446744073709551615");
    assert_eq!(parse_u64("0"), Some(0));
    assert_eq!(parse_u64("+42"), Some(42));
    assert_eq!(parse_u64("007"), Some(7));
    assert_eq!(parse_u64("18446744073709551615"), Some(u64::MAX));
    assert_eq!(parse_u64("18446744073709551616"), None);
    assert_eq!(parse_u64("99999999999999999999999"), None);
    assert_eq!(parse_u64(""), None);
    assert_eq!(parse_u64("+"), None);
    assert_eq!(parse_u64("-1"), None);
    assert_eq!(parse_u64("12a"), None);
    assert_eq!(parse_u64(" 1"), None);
}

#[test]
fn items_are_created_or_retitled() {
    let info = |t: ItemType| ItemInfo {
        id: 5,
        item_type: t,
        title: "Old".to_string(),
        location: "kurssit".to_string(),
        short_name: "tie".to_string(),
        lang_id: None,
    };
    assert!(matches!(
        create_or_update_item(ItemType::Document, "k/d", ItemLookup::NotFound),
        Ok(UpsertAction::Create)
    ));
    match create_or_update_item(ItemType::Folder, "k/f", ItemLookup::Found(info(ItemType::Folder))) {
        Ok(UpsertAction::UpdateTitle(kept)) => assert_eq!(kept.id, 5),
        other => panic!("unexpected outcome: {:?}", other),
    }
    match create_or_update_item(ItemType::Document, "k/f", ItemLookup::Found(info(ItemType::Folder))) {
        Err(e) => assert_eq!(e.message(), "Item k/f is not a document, but a folder"),
        other => panic!("unexpected outcome: {:?}", other),
    }
    assert!(upload_markdown("k/d", &info(ItemType::Document)).is_ok());
    assert_eq!(
        upload_markdown("k/f", &info(ItemType::Folder)).unwrap_err().message(),
        "Item k/f is not a document, but a folder"
    );
    assert_eq!(item_type_text(ItemType::Folder), "folder");
    assert_eq!(item_type_text(ItemType::Document), "document");
}

#[test]
fn seeded_paragraph_identifiers_are_stable() {
    // The digest of "hello world" starts 2a ae 6c 35 c9 4f cf b4 15 db e9 ...
    let expected_values: Vec<usize> =
        [0x2a, 0xae, 0x6c, 0x35, 0xc9, 0x4f, 0xcf, 0xb4, 0x15, 0xdb, 0xe9].iter().map(|b| b % 62).collect();
    assert_eq!(hashed_par_id(Some("hello world")), par_id_of(&expected_values));
    assert_eq!(hashed_par_id(Some("task1")), hashed_par_id(Some("task1")));
    assert_ne!(hashed_par_id(Some("task1")), hashed_par_id(Some("task2")));
    assert_eq!(hashed_par_id(None).chars().count(), 12);
}

#[test]
fn documents_are_created_before_their_first_upload() {
    let folder = ItemInfo {
        id: 1,
        item_type: ItemType::Folder,
        title: "t".to_string(),
        location: "l".to_string(),
        short_name: "s".to_string(),
        lang_id: None,
    };
    let document = ItemInfo { item_type: ItemType::Document, lang_id: Some("fi".to_string()), ..folder_copy(&folder) };
    assert_eq!(process_markdown("docs/a", &ItemLookup::NotFound).unwrap(), true);
    assert_eq!(process_markdown("docs/a", &ItemLookup::Found(document)).unwrap(), false);
    assert_eq!(
        process_markdown("docs/a", &ItemLookup::Found(folder)).unwrap_err().message(),
        "The item docs/a is not a document, but a folder"
    );
}

fn folder_copy(info: &ItemInfo) -> ItemInfo {
    ItemInfo {
        id: info.id,
        item_type: info.item_type,
        title: info.title.clone(),
        location: info.location.clone(),
        short_name: info.short_name.clone(),
        lang_id: info.lang_id.clone(),
    }
}

#[test]
fn client_builder_needs_a_host() {
    assert_eq!(TimClientBuilder::new().build().unwrap_err().message(), "No TIM host given");
    assert_eq!(TimClientBuilder::new().tim_host("https://tim.example").build().unwrap(), "https://tim.example");
}

#[test]
fn errors_say_what_went_wrong() {
    assert_eq!(
        TimClientErrors::NoXsrfToken.message(),
        "No XSRF token found. Call refresh_xsrf_token() first."
    );
    assert_eq!(
        TimClientErrors::InvalidLogin("403 Forbidden".to_string()).message(),
        "Invalid username or password for basic login. Server responded with: 403 Forbidden"
    );
    assert_eq!(
        TimClientErrors::ItemNotFound("a/b".to_string(), "404".to_string()).message(),
        "Item not found from a/b: 404"
    );
    assert_eq!(
        TimClientErrors::CouldNotCreateItem("a/b".to_string(), "500".to_string()).message(),
        "Could not create item a/b: 500"
    );
    assert_eq!(
        TimClientErrors::ItemError("a/b".to_string(), "500".to_string()).message(),
        "Failed to process a/b: 500"
    );
    assert_eq!(
        SyncError::ItemNameConflict("a/b".to_string()).message(),
        "Multiple documents found for the same TIM path 'a/b'. Make sure there are no duplicate paths in the project."
    );
    assert_eq!(
        SyncError::ItemTypeConflict("a".to_string()).message(),
        "There is a document and a folder with the same path 'a'. TIM requires that all items (folders, documents) have a unique path."
    );
    assert_eq!(
        SyncError::SyncTargetDoesNotExist("h/r".to_string()).message(),
        "The sync target path h/r does not exist in TIM. Create the folder first in TIM and set appropriate permissions before syncing files."
    );
    assert_eq!(
        SyncError::SyncTargetNotAFolder("h/r".to_string()).message(),
        "The sync target path h/r is not a folder in TIM. The target path must be a folder for sync to work."
    );
    assert_eq!(
        SyncError::ItemIsNotADocument("a".to_string(), "folder".to_string()).message(),
        "The item a is not a document, but a folder"
    );
}

#[test]
fn paragraph_identifiers_end_in_their_check_character() {
    assert_eq!(par_id_of(&vec![0; 11]), "000000000000");
    assert_eq!(par_id_of(&vec![1, 0, 0, 0, 0, 0, 0, 0, 0, 0, 0]), "10000000000Y");
    assert_eq!(par_id_of(&vec![0, 1, 0, 0, 0, 0, 0, 0, 0, 0, 0]), "01000000000Z");
    assert_eq!(par_id_of(&vec![61, 61, 61, 61, 61, 61, 61, 61, 61, 61, 61]), "ZZZZZZZZZZZh");
    let id = random_par_id();
    assert_eq!(id.chars().count(), 12);
    assert!(id.chars().all(|c| c.is_ascii_alphanumeric()));
    let charset = "0123456789abcdefghijklmnopqrstuvwxyzABCDEFGHIJKLMNOPQRSTUVWXYZ";
    let values: Vec<usize> = id.chars().take(11).map(|c| charset.find(c).unwrap()).collect();
    assert_eq!(par_id_of(&values), id);
}

#[test]
fn ignore_patterns_are_read_and_matched() {
    let mut ignore = IgnoreFile::new();
    assert!(!ignore.is_ignored("/proj/README.md"));
    ignore.add_ignore_patterns("\n# comment\nREADME.md\r\n  \ndrafts/**/*.md\n/abs/*.tmp", "/proj");
    assert_eq!(ignore.ignore_patterns, vec!["/proj/README.md", "/proj/drafts/**/*.md", "/abs/*.tmp"]);
    assert!(ignore.is_ignored("/proj/README.md"));
    assert!(ignore.is_ignored("/proj/drafts/a/b/c.md"));
    assert!(ignore.is_ignored("/abs/x.tmp"));
    assert!(!ignore.is_ignored("/proj/docs/README.md"));
    let mut broken = IgnoreFile::new();
    broken.add_ignore_patterns("a[", "/proj");
    assert!(!broken.is_ignored("/proj/a["));
}

#[test]
fn output_collects_bytes() {
    let mut out = WriteOutput::new(b"AB".to_vec());
    out.write("cd");
    out.write("é");
    assert_eq!(out.write, "ABcdé".as_bytes().to_vec());
}

#[test]
fn options_default_to_the_default_target() {
    assert_eq!(SyncOpts::new(None).target, "default");
    assert_eq!(SyncOpts::new(Some("test".to_string())).target, "test");
}

#[test]
fn pipeline_hands_files_to_their_processors() {
    let mut pipeline = SyncPipeline::new("/proj", "default");
    assert!(pipeline.register(FileProcessor::Task(TaskProcessor::new("/proj"))).is_none());
    assert!(pipeline
        .register(FileProcessor::StyleTheme(StyleThemeProcessor::new("/proj", "default")))
        .is_none());
    assert!(pipeline.register(FileProcessor::Task(TaskProcessor::new("/proj"))).is_some());
    assert_eq!(pipeline.processors.len(), 3);
    let file = |p: &str, c: &str| ProjectFile::try_from_path(p.to_string(), c.to_string()).unwrap();
    let plain = |uid: Option<&str>| FrontMatter {
        document: DocumentSettings { title: None, tim_path: None },
        general: GeneralProjectFileMetadata { processor: None, uid: uid.map(|u| u.to_string()) },
        task: None,
    };
    pipeline.add_file(file("/proj/index.md", "# Home"), plain(Some("home"))).unwrap();
    pipeline.add_file(file("/proj/docs/guide.md", "# Guide"), plain(None)).unwrap();
    let task = FrontMatter {
        task: Some(TaskSettings { plugin: "csPlugin".to_string(), plugin_attributes: None, class: None }),
        ..plain(Some("task1"))
    };
    pipeline.add_file(file("/proj/tasks/one.task.yml", "---\nuid: task1\n---\n"), task).unwrap();
    let docs = pipeline.get_tim_documents();
    let paths: Vec<&str> = docs.iter().map(|d| d.path.as_str()).collect();
    assert_eq!(paths, vec!["index", "docs/guide", "_project_tasks"]);
    let identified = pipeline.identify_documents(docs);
    let uids: Vec<Option<&str>> = identified.iter().map(|d| d.uid.as_deref()).collect();
    assert_eq!(uids, vec![Some("home"), None, Some(TASKS_UID)]);
    let frozen = pipeline.update_project_context(&identified, site(), &target());
    assert_eq!(frozen.get().base_path, "kurssit/tie");
    assert_eq!(frozen.get().host, "https://tim.example");
    assert_eq!(frozen.document("home").unwrap().path, "index");
    assert_eq!(frozen.extra(TASKS_REF_MAP_KEY).unwrap()[0].value, hashed_par_id(Some("task1")));
    assert!(frozen.extra("style_themes").unwrap().is_empty());
}
