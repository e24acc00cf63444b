use timsync::path::{
    extension, file_name, file_stem, full_extension, generate_hashed_filename, is_hidden,
    is_markdown, path_segments, strip_base, FullExtension, NormalizeExtension, RelativizeExtension,
    WithSetExtension,
};
use timsync::project::Project;
use timsync::project_files::{classify, FileKind};

#[test]
fn segments_are_the_runs_between_slashes() {
    assert_eq!(path_segments("a/b/c"), vec!["a", "b", "c"]);
    assert_eq!(path_segments("/a//b/"), vec!["", "a", "", "b", ""]);
    assert_eq!(path_segments(""), vec![""]);
}

#[test]
fn normalize_resolves_dots() {
    assert_eq!("/a/b/../c/./d".to_string().normalize(), "/a/c/d");
    assert_eq!("a/./b//c".to_string().normalize(), "a/b/c");
    assert_eq!("/..".to_string().normalize(), "/");
    assert_eq!("../a".to_string().normalize(), "a");
    assert_eq!("a/b/../../..".to_string().normalize(), "");
    assert_eq!("/proj/docs/../img/logo.png".to_string().normalize(), "/proj/img/logo.png");
}

#[test]
fn relativize_strips_the_base() {
    assert_eq!("/proj/docs/guide.md".to_string().relativize("/proj"), Some("docs/guide.md".to_string()));
    assert_eq!("/proj/docs/guide.md".to_string().relativize("/proj/"), Some("docs/guide.md".to_string()));
    assert_eq!("/proj".to_string().relativize("/proj"), Some("".to_string()));
    assert_eq!("/other/guide.md".to_string().relativize("/proj"), None);
    assert_eq!("/pro".to_string().relativize("/proj"), None);
}

#[test]
fn strip_base_relates_two_paths_as_they_stand() {
    assert_eq!(strip_base("/proj/docs/guide.md", "/proj"), Some("docs/guide.md".to_string()));
    assert_eq!(strip_base("/proj/./docs//guide.md", "/proj/"), Some("docs/guide.md".to_string()));
    assert_eq!(strip_base("/proj/docs/../guide.md", "/proj"), Some("guide.md".to_string()));
    assert_eq!(strip_base("docs/a/b.md", "docs"), Some("a/b.md".to_string()));
    assert_eq!(strip_base("proj/a", "/proj"), None);
    assert_eq!(strip_base("/proj/a", "proj"), None);
    assert_eq!(strip_base("/pro", "/proj"), None);
}

#[test]
fn paths_that_are_not_absolute_are_related_from_the_working_directory() {
    assert_eq!("docs/guide.md".to_string().relativize("."), Some("docs/guide.md".to_string()));
    assert_eq!("docs/guide.md".to_string().relativize("docs"), Some("guide.md".to_string()));
    assert_eq!("./docs/../a.md".to_string().relativize(""), Some("a.md".to_string()));
    assert_eq!("docs/guide.md".to_string().relativize("other"), None);
    let below_the_top = "a.md".to_string().relativize("/").unwrap();
    assert!(below_the_top.ends_with("a.md"));
    assert!(!below_the_top.starts_with('/'));
    assert_eq!("/top/a.md".to_string().relativize("top"), None);
}

#[test]
fn extensions_and_stems() {
    assert_eq!(full_extension("/p/a.task.yaml"), Some("task.yaml".to_string()));
    assert_eq!(full_extension("/p/a.md"), Some("md".to_string()));
    assert_eq!(full_extension("/p/.hidden"), None);
    assert_eq!(full_extension("/p/.hidden.txt"), Some("txt".to_string()));
    assert_eq!(full_extension("/p/noext"), None);
    assert_eq!(full_extension("/p/.."), None);
    assert_eq!(full_extension("/p.d/"), None);
    assert_eq!("/p/x.tar.gz".to_string().full_extension(), Some("tar.gz".to_string()));
    assert_eq!(extension("/p/x.tar.gz"), Some("gz".to_string()));
    assert_eq!(extension("/p/.hidden"), None);
    assert_eq!(extension("/p/x."), Some("".to_string()));
    assert_eq!(file_stem("/p/x.tar.gz"), "x.tar");
    assert_eq!(file_stem("/p/.hidden"), ".hidden");
    assert_eq!(file_stem("guide.md"), "guide");
    assert_eq!(file_name("/p/q/guide.md"), "guide.md");
    assert_eq!(file_name("guide.md"), "guide.md");
    assert_eq!("docs/guide.md".to_string().with_extension_removed(), "docs/guide");
    assert_eq!("docs.d/guide".to_string().with_extension_removed(), "docs.d/guide");
    assert_eq!("docs/x.tar.gz".to_string().with_extension_removed(), "docs/x.tar");
}

#[test]
fn hidden_and_markdown_names() {
    assert!(is_hidden(".git"));
    assert!(is_hidden("_templates"));
    assert!(!is_hidden("docs"));
    assert!(!is_hidden(""));
    assert!(is_markdown("/p/a.md"));
    assert!(is_markdown("/p/a.b.md"));
    assert!(!is_markdown("/p/a.mdx"));
    assert!(!is_markdown("/p/md"));
}

#[test]
fn files_are_classified_by_full_extension() {
    assert_eq!(classify("/p/a.md"), Some(FileKind::Markdown));
    assert_eq!(classify("/p/t.task.yaml"), Some(FileKind::Task));
    assert_eq!(classify("/p/t.task.yml"), Some(FileKind::Task));
    assert_eq!(classify("/p/notes.draft.md"), None);
    assert_eq!(classify("/p/a.yaml"), None);
    assert_eq!(classify("/p/README"), None);
}

#[test]
fn hashed_filename_is_the_fingerprint_and_the_full_extension() {
    assert_eq!(
        generate_hashed_filename("/p/img/logo.png", b"hello world"),
        "2aae6c35c94fcfb415dbe95f408b9ce91ee846ed.png"
    );
    assert_eq!(
        generate_hashed_filename("/p/a/archive.tar.gz", b"hello world"),
        "2aae6c35c94fcfb415dbe95f408b9ce91ee846ed.tar.gz"
    );
    assert_eq!(generate_hashed_filename("/p/LICENSE", b"abc"), "a9993e364706816aba3e25717850c26c9cd0d89d");
}

#[test]
fn one_asset_in_two_documents_gets_one_name() {
    let bytes = b"\x89PNG binary".to_vec();
    let from_first = generate_hashed_filename("/p/docs/logo.png", &bytes);
    let from_second = generate_hashed_filename("/p/other/place/logo.png", &bytes);
    assert_eq!(from_first, from_second);
    assert_ne!(from_first, generate_hashed_filename("/p/docs/logo.png", b"other bytes"));
}

#[test]
fn project_is_sought_in_at_most_ten_directories() {
    assert_eq!(Project::search_directories("/a/b"), vec!["/a/b", "/a", "/"]);
    assert_eq!(Project::search_directories("/"), vec!["/"]);
    let deep = "/1/2/3/4/5/6/7/8/9/10/11/12";
    let dirs = Project::search_directories(deep);
    assert_eq!(dirs.len(), 10);
    assert_eq!(dirs[0], deep);
    assert_eq!(dirs[9], "/1/2/3");
    assert_eq!(Project::parent_of("/a/b"), Some("/a".to_string()));
    assert_eq!(Project::parent_of("/a"), Some("/".to_string()));
    assert_eq!(Project::parent_of("/"), None);
    assert_eq!(Project::parent_of("rel"), None);
}
