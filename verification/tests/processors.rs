use timsync::config::{SyncConfig, SyncTarget};
use timsync::markdown_processor::{DocumentSettings, MarkdownProcessor, ProcessorError};
use timsync::prepared_document::PreparedDocumentMarkdown;
use timsync::processors::{FileProcessor, FileProcessorAPI, FileProcessorType, FrontMatter};
use timsync::tim_client::hashed_par_id;
use timsync::project_files::{GeneralProjectFileMetadata, MarkdownFile, ProjectFile};
use timsync::style_theme_processor::StyleThemeProcessor;
use timsync::task_processor::{
    RenderedTask, TaskAttribute, TaskProcessor, TaskSettings, TASKS_DOCPATH, TASKS_REF_MAP_KEY,
    TASKS_TITLE,
};
use timsync::tim_document::TIMDocument;
use timsync::upload_files::UploadFiles;

fn md(path: &str, contents: &str) -> ProjectFile {
    ProjectFile::Markdown(MarkdownFile::new(path.to_string(), contents.to_string()))
}

fn task_file(path: &str, contents: &str) -> ProjectFile {
    ProjectFile::try_from_path(path.to_string(), contents.to_string()).unwrap()
}

fn no_settings() -> DocumentSettings {
    DocumentSettings { title: None, tim_path: None }
}

fn settings(plugin: &str) -> TaskSettings {
    TaskSettings { plugin: plugin.to_string(), plugin_attributes: None, class: None }
}

fn meta(uid: Option<&str>) -> GeneralProjectFileMetadata {
    GeneralProjectFileMetadata { processor: None, uid: uid.map(|u| u.to_string()) }
}

#[test]
fn markdown_document_path_and_title_default_to_the_file() {
    let mut p = MarkdownProcessor::new("/proj", "default");
    p.add_file(md("/proj/Docs/My Guide.md", "body"), no_settings(), None).unwrap();
    let docs = p.get_tim_documents();
    assert_eq!(docs.len(), 1);
    assert_eq!(docs[0].path, "docs/my guide");
    assert_eq!(docs[0].title, "My Guide");
    assert_eq!(docs[0].id, None);
    assert_eq!(docs[0].processor, FileProcessorType::Markdown);
}

#[test]
fn front_matter_overrides_path_and_title() {
    let mut p = MarkdownProcessor::new("/proj", "default");
    let s = DocumentSettings { title: Some("Home".to_string()), tim_path: Some("Start\\Page".to_string()) };
    p.add_file(md("/proj/index.md", "body"), s, Some("home".to_string())).unwrap();
    let docs = p.get_tim_documents();
    assert_eq!(docs[0].path, "start/page");
    assert_eq!(docs[0].title, "Home");
    assert_eq!(p.document_info("start/page").unwrap().uid, Some("home".to_string()));
}

#[test]
fn duplicate_remote_path_is_an_error() {
    let mut p = MarkdownProcessor::new("/proj", "default");
    p.add_file(md("/proj/a/Guide.md", "one"), no_settings(), None).unwrap();
    let s = DocumentSettings { title: None, tim_path: Some("A/guide".to_string()) };
    match p.add_file(md("/proj/b/other.md", "two"), s, None) {
        Err(ProcessorError::DuplicateDocumentPath(path)) => assert_eq!(path, "a/guide"),
        other => panic!("unexpected outcome: {:?}", other),
    }
    assert_eq!(p.get_tim_documents().len(), 1);
}

#[test]
fn file_outside_the_project_is_an_error() {
    let mut p = MarkdownProcessor::new("/proj", "default");
    match p.add_file(md("/elsewhere/a.md", "x"), no_settings(), None) {
        Err(ProcessorError::FileOutsideProject(path)) => assert_eq!(path, "/elsewhere/a.md"),
        other => panic!("unexpected outcome: {:?}", other),
    }
    match p.add_file(md("/proj/..", "x"), no_settings(), None) {
        Err(ProcessorError::NoFileName(path)) => assert_eq!(path, "/proj/.."),
        other => panic!("unexpected outcome: {:?}", other),
    }
}

#[test]
fn render_input_holds_the_template_and_the_document() {
    let mut p = MarkdownProcessor::new("/proj", "default");
    p.add_file(md("/proj/docs/guide.md", "---\ntitle: G\n---\nHello {{title}}\n"), no_settings(), None).unwrap();
    let mut doc = p.get_tim_documents().remove(0);
    let input = p.render_input(&doc).unwrap();
    assert_eq!(input.template, "\nHello {{title}}\n");
    assert_eq!(input.title, "guide");
    assert_eq!(input.path, "docs/guide");
    assert_eq!(input.doc_id, 0);
    assert_eq!(input.local_file_path, Some("docs/guide.md".to_string()));
    doc.id = Some(42);
    assert_eq!(p.render_input(&doc).unwrap().doc_id, 42);
    assert_eq!(p.get_project_file_local_path(&doc), Some("docs/guide.md".to_string()));
    let stranger = TIMDocument::new(FileProcessorType::Markdown, "t".to_string(), "nope".to_string());
    assert!(matches!(p.render_input(&stranger), Err(ProcessorError::UnknownDocument(_))));
}

#[test]
fn target_root_comes_from_the_configuration() {
    let p = MarkdownProcessor::new("/proj", "default");
    let mut config = SyncConfig::new();
    assert!(matches!(p.target_root(&config), Err(ProcessorError::UnknownTarget(_))));
    config.set_target(
        "default",
        SyncTarget {
            host: "https://tim.example".to_string(),
            folder_root: "kurssit/tie".to_string(),
            username: "u".to_string(),
            password: "SECRET-REDACTED".to_string(),
        },
    );
    assert_eq!(p.target_root(&config).unwrap(), "kurssit/tie");
}

#[test]
fn rendered_markdown_gets_its_links_rewritten() {
    let mut p = MarkdownProcessor::new("/proj", "default");
    p.add_file(md("/proj/docs/guide.md", "x"), no_settings(), None).unwrap();
    p.add_file(md("/proj/docs/Other.md", "y"), no_settings(), None).unwrap();
    let known = p.known_documents();
    assert_eq!(known.len(), 2);
    assert_eq!(known[1].local_path, "/proj/docs/Other.md");
    assert_eq!(known[1].remote_path, "docs/other");
    let doc = p.get_tim_documents().remove(0);
    assert_eq!(doc.path, "docs/guide");
    let rendered = "Go to [other](./Other.md) or ![logo](./logo.png).\n";
    let mut planned = p.plan_document_links(&doc, rendered, "root").unwrap();
    assert_eq!(planned.len(), 2);
    planned[1].asset = Some(b"hello world".to_vec());
    let mut discovered = UploadFiles::new();
    discovered.insert("/proj/extra.pdf".to_string(), "ff.pdf".to_string());
    let out = p.render_tim_document(&doc, rendered, discovered, &planned, "root").unwrap();
    assert_eq!(
        out.markdown,
        "Go to [other](/view/root/docs/other) or ![logo](/files/root/docs/guide/2aae6c35c94fcfb415dbe95f408b9ce91ee846ed.png).\n"
    );
    assert_eq!(out.upload_files.get("/proj/extra.pdf").unwrap(), "ff.pdf");
    assert_eq!(
        out.upload_files.get("/proj/docs/logo.png").unwrap(),
        "2aae6c35c94fcfb415dbe95f408b9ce91ee846ed.png"
    );
}

#[test]
fn tasks_need_an_identifier_and_a_fresh_one() {
    let mut p = TaskProcessor::new("/proj");
    assert!(matches!(
        p.add_file(task_file("/proj/a.task.yml", ""), meta(None), settings("csPlugin")),
        Err(ProcessorError::MissingUid)
    ));
    p.add_file(task_file("/proj/a.task.yml", ""), meta(Some("t1")), settings("csPlugin")).unwrap();
    match p.add_file(task_file("/proj/b.task.yml", ""), meta(Some("t1")), settings("csPlugin")) {
        Err(ProcessorError::DuplicateTask { uid, registered }) => {
            assert_eq!(uid, "t1");
            assert_eq!(registered, "/proj/a.task.yml");
        }
        other => panic!("unexpected outcome: {:?}", other),
    }
    assert_eq!(p.files.len(), 1);
}

#[test]
fn tasks_are_kept_in_ascending_order_of_their_identifiers() {
    let mut p = TaskProcessor::new("/proj");
    for uid in ["m", "b", "z", "a", "ab", "B"] {
        p.add_file(task_file("/proj/x.task.yml", ""), meta(Some(uid)), settings("p")).unwrap();
    }
    let uids: Vec<&str> = p.files.iter().map(|k| k.key.as_str()).collect();
    assert_eq!(uids, vec!["B", "a", "ab", "b", "m", "z"]);
    let context = p.get_processor_context().unwrap();
    assert_eq!(context.len(), 1);
    assert_eq!(context[0].key, TASKS_REF_MAP_KEY);
    let refs: Vec<(&str, &str)> = context[0].value.iter().map(|k| (k.key.as_str(), k.value.as_str())).collect();
    assert_eq!(refs[0], ("B", hashed_par_id(Some("B")).as_str()));
    assert_eq!(refs[5], ("z", hashed_par_id(Some("z")).as_str()));
}

#[test]
fn tasks_make_one_document_of_plugin_paragraphs() {
    let mut p = TaskProcessor::new("/proj");
    let with_all = TaskSettings {
        plugin: "csPlugin".to_string(),
        plugin_attributes: Some(vec![
            TaskAttribute { name: "rows".to_string(), value: "10".to_string() },
            TaskAttribute { name: "lang".to_string(), value: "py".to_string() },
        ]),
        class: Some(vec!["wide".to_string(), "task".to_string()]),
    };
    p.add_file(task_file("/proj/t/two.task.yml", "---\nuid: t2\n---\nbody2\n"), meta(Some("t2")), with_all).unwrap();
    p.add_file(task_file("/proj/t/one.task.yml", "---\nuid: t1\n---\nbody1\n"), meta(Some("t1")), settings("mcq")).unwrap();
    let docs = p.get_tim_documents();
    assert_eq!(docs.len(), 1);
    assert_eq!(docs[0].path, TASKS_DOCPATH);
    assert_eq!(docs[0].title, TASKS_TITLE);
    let inputs = p.render_inputs();
    assert_eq!(inputs.len(), 2);
    assert_eq!(inputs[0].uid, "t1");
    assert_eq!(inputs[0].template, "\nbody1\n");
    assert_eq!(inputs[0].local_file_path, Some("t/one.task.yml".to_string()));
    let mut first = UploadFiles::new();
    first.insert("/proj/t/a.png".to_string(), "1.png".to_string());
    let rendered = vec![
        RenderedTask { body: "type: text".to_string(), upload_files: first },
        RenderedTask { body: "rows: 10".to_string(), upload_files: UploadFiles::new() },
    ];
    let doc = p.render_tim_document(rendered).unwrap();
    assert_eq!(
        doc.markdown,
        format!(
            "``` {{#t1  id=\"{}\" plugin=\"mcq\" }}\n\ntype: text\n\n```\n\n\
             ``` {{#t2  id=\"{}\" plugin=\"csPlugin\" rows=\"10\" lang=\"py\" .wide .task }}\n\nrows: 10\n\n```\n\n",
            hashed_par_id(Some("t1")),
            hashed_par_id(Some("t2"))
        )
    );
    assert_eq!(doc.upload_files.get("/proj/t/a.png").unwrap(), "1.png");
    assert!(matches!(p.render_tim_document(Vec::new()), Err(ProcessorError::RenderMismatch)));
}

#[test]
fn theme_names_must_be_distinct() {
    let mut p = StyleThemeProcessor::new("/proj", "default");
    p.add_file(md("/proj/themes/dark.md", "a"), no_settings(), None).unwrap();
    match p.add_file(md("/proj/other/dark.md", "b"), no_settings(), None) {
        Err(ProcessorError::DuplicateTheme { registered, added }) => {
            assert_eq!(registered, "/proj/themes/dark.md");
            assert_eq!(added, "/proj/other/dark.md");
        }
        other => panic!("unexpected outcome: {:?}", other),
    }
    p.add_file(md("/proj/themes/light.md", "c"), no_settings(), None).unwrap();
    let docs = p.get_tim_documents();
    assert_eq!(docs.len(), 2);
    assert_eq!(docs[0].processor, FileProcessorType::StyleTheme);
    assert_eq!(docs[1].path, "themes/light");
    let context = p.get_processor_context("kurssit/tie").unwrap();
    assert_eq!(context[0].key, "style_themes");
    let themes: Vec<(&str, &str)> = context[0].value.iter().map(|k| (k.key.as_str(), k.value.as_str())).collect();
    assert_eq!(themes, vec![("dark", "/kurssit/tie/themes/dark"), ("light", "/kurssit/tie/themes/light")]);
}

#[test]
fn theme_is_wrapped_in_its_envelope() {
    let p = StyleThemeProcessor::new("/proj", "default");
    let doc = TIMDocument::new(FileProcessorType::StyleTheme, "Dark".to_string(), "themes/dark".to_string());
    let PreparedDocumentMarkdown(out) = p.render_tim_document(&doc, "\n  body { color: red; }\n\n");
    assert_eq!(out, "``` {settings=\"\"}\ndescription: \"Dark\"\n```\n\n```scss\nbody { color: red; }\n```");
}

#[test]
fn processors_behind_one_interface() {
    let mut any = FileProcessor::Task(TaskProcessor::new("/proj"));
    let fm = FrontMatter { document: no_settings(), general: meta(Some("t")), task: None };
    assert!(matches!(
        any.add_file(task_file("/proj/a.task.yml", ""), fm),
        Err(ProcessorError::MissingTaskSettings)
    ));
    let fm = FrontMatter { document: no_settings(), general: meta(None), task: None };
    assert!(matches!(any.add_file(task_file("/proj/a.task.yml", ""), fm), Err(ProcessorError::MissingUid)));
    let fm = FrontMatter {
        document: no_settings(),
        general: meta(Some("t")),
        task: Some(settings("p")),
    };
    any.add_file(task_file("/proj/a.task.yml", ""), fm).unwrap();
    let fm = FrontMatter { document: no_settings(), general: meta(Some("t")), task: None };
    match any.add_file(task_file("/proj/b.task.yml", ""), fm) {
        Err(ProcessorError::DuplicateTask { uid, registered }) => {
            assert_eq!(uid, "t");
            assert_eq!(registered, "/proj/a.task.yml");
        }
        other => panic!("unexpected outcome: {:?}", other),
    }
    assert_eq!(any.get_tim_documents().len(), 1);
    assert!(any.get_processor_context("root").is_some());
    let mut markdown = FileProcessor::Markdown(MarkdownProcessor::new("/proj", "default"));
    let fm = FrontMatter { document: no_settings(), general: meta(None), task: None };
    markdown.add_file(md("/proj/a.md", "x"), fm).unwrap();
    assert_eq!(markdown.get_tim_documents()[0].path, "a");
    assert!(markdown.get_processor_context("root").is_none());
}

#[test]
fn links_of_a_document_can_fail_to_resolve() {
    let mut p = MarkdownProcessor::new("/proj", "default");
    p.add_file(md("/proj/a.md", "x"), no_settings(), None).unwrap();
    let doc = p.get_tim_documents().remove(0);
    assert!(matches!(
        p.plan_document_links(&doc, "[x](///[bad/x.png)", "root"),
        Err(ProcessorError::UnresolvedLink(timsync::links::LinkError::CannotJoin))
    ));
    let stranger = TIMDocument::new(FileProcessorType::Markdown, "t".to_string(), "nope".to_string());
    assert!(matches!(
        p.plan_document_links(&stranger, "text", "root"),
        Err(ProcessorError::UnknownDocument(_))
    ));
    let misplaced = vec![timsync::links::PlannedLink {
        start: 5,
        end: 2,
        target: timsync::links::LinkTarget::Document("/view/root/x".to_string()),
        asset: None,
    }];
    assert!(matches!(
        p.render_tim_document(&doc, "0123456789", UploadFiles::new(), &misplaced, "root"),
        Err(ProcessorError::MalformedLinks)
    ));
}
