use timsync::fingerprint::{fingerprint, fingerprint_bytes, to_hex};
use timsync::prepared_document::{
    content_action, ContentAction, PreparedDocument, PreparedDocumentMarkdown, TimSyncDocSettings,
};
use timsync::stamp::{extract_stamp, read_hash, stamp_reads_back, with_stamp, write_stamp};
use timsync::upload_files::UploadFiles;

fn prepared(markdown: &str) -> PreparedDocument {
    PreparedDocument { markdown: markdown.to_string(), upload_files: UploadFiles::new() }
}

#[test]
fn fingerprint_is_the_sha1_in_lower_case_hex() {
    assert_eq!(fingerprint("hello world"), "2aae6c35c94fcfb415dbe95f408b9ce91ee846ed");
    assert_eq!(fingerprint(""), "da39a3ee5e6b4b0d3255bfef95601890afd80709");
    assert_eq!(fingerprint_bytes(b"abc"), "a9993e364706816aba3e25717850c26c9cd0d89d");
}

#[test]
fn hex_has_two_digits_for_each_byte() {
    assert_eq!(to_hex(&vec![0x00, 0x0f, 0xa0, 0xff, 0x5c]), "000fa0ff5c");
    assert_eq!(to_hex(&Vec::new()), "");
}

#[test]
fn stamp_has_the_expected_text() {
    assert_eq!(write_stamp("abc123"), "``` {settings=\"timsync\"}\nhash: abc123\n```\n");
    assert_eq!(
        with_stamp("# Title\n", "abc123"),
        "``` {settings=\"timsync\"}\nhash: abc123\n```\n\n\n# Title\n"
    );
    assert_eq!(
        TimSyncDocSettings::new("ff00".to_string()).to_markdown(),
        "``` {settings=\"timsync\"}\nhash: ff00\n```\n"
    );
}

#[test]
fn stamp_round_trip() {
    let doc = prepared("Some *content* with ``` a fence ``` in it\n");
    let hash = doc.sha1();
    let stamped = doc.with_timestamp();
    assert_eq!(extract_stamp(&stamped.markdown), Some(hash));
}

#[test]
fn unchanged_content_is_not_uploaded_again() {
    let first = content_action("root", "docs/guide", "Guide", prepared("Hello\n"), "");
    let uploaded = match first {
        ContentAction::Upload { path, markdown, title, files } => {
            assert_eq!(path, "root/docs/guide");
            assert_eq!(title, "Guide");
            assert!(files.entries.is_empty());
            markdown
        }
        ContentAction::Skip => panic!("the first run must upload"),
    };
    let second = content_action("root", "docs/guide", "Guide", prepared("Hello\n"), &uploaded);
    assert!(matches!(second, ContentAction::Skip));
    let changed = content_action("root", "docs/guide", "Guide", prepared("Hello!\n"), &uploaded);
    assert!(matches!(changed, ContentAction::Upload { .. }));
}

#[test]
fn timestamp_equals_compares_the_stamped_fingerprint() {
    let doc = prepared("text");
    let hash = doc.sha1();
    assert!(doc.timestamp_equals(&format!("``` {{settings=\"timsync\"}}\nhash: {}\n```\n\n\nold", hash)));
    assert!(doc.timestamp_equals(&format!("intro\n```{{ settings=\"timsync\" x=\"1\"}}\nhash: '{}'\n```", hash)));
    assert!(doc.timestamp_equals(&format!("```\n{{settings=\"timsync\"}}\nother: 1\nhash:   \"{}\"  \n```", hash)));
    assert!(!doc.timestamp_equals("``` {settings=\"timsync\"}\nhash: 0000\n```\n"));
    assert!(!doc.timestamp_equals("no stamp at all"));
    assert!(!doc.timestamp_equals(&format!("``` {{settings=\"other\"}}\nhash: {}\n```\n", hash)));
    assert!(!doc.timestamp_equals(&format!("``` {{settings=\"timsync\"}}\nhash: {}\n", hash)));
    assert!(!doc.timestamp_equals(&format!("``` {{settings=\"timsync\"}} trailing\nhash: {}\n```", hash)));
}

#[test]
fn first_stamp_wins() {
    let doc = prepared("text");
    let hash = doc.sha1();
    let md = format!(
        "``` {{settings=\"timsync\"}}\nhash: abcd\n```\n``` {{settings=\"timsync\"}}\nhash: {}\n```\n",
        hash
    );
    assert_eq!(extract_stamp(&md), Some("abcd".to_string()));
    assert!(!doc.timestamp_equals(&md));
}

#[test]
fn settings_are_read_from_the_body_of_a_stamp() {
    assert_eq!(TimSyncDocSettings::from_yaml("hash: abc\n").unwrap().hash, "abc");
    assert_eq!(TimSyncDocSettings::from_yaml("a: 1\nhash: abc").unwrap().hash, "abc");
    assert!(TimSyncDocSettings::from_yaml("a: 1\n").is_none());
    assert!(TimSyncDocSettings::from_yaml("").is_none());
}

#[test]
fn the_body_of_a_stamp_is_a_yaml_mapping() {
    assert_eq!(read_hash("hash: abc\n"), Some("abc".to_string()));
    assert_eq!(read_hash("hash: 'abc'\n"), Some("abc".to_string()));
    assert_eq!(read_hash("{other: [1, 2], hash: \"a b\"}"), Some("a b".to_string()));
    assert_eq!(read_hash("hash: 12\n"), None);
    assert_eq!(read_hash("hash: [a, b]\n"), None);
    assert_eq!(read_hash("- hash: abc\n"), None);
    assert_eq!(read_hash("hash: abc\n  broken: : :\n"), None);
    assert_eq!(read_hash("hash"), None);
}

#[test]
fn a_stamp_that_would_read_as_a_number_is_written_so_that_it_reads_as_text() {
    let digits = "1234567890123456789012345678901234567890";
    let stamp = write_stamp(digits);
    assert_ne!(stamp, format!("``` {{settings=\"timsync\"}}\nhash: {}\n```\n", digits));
    assert_eq!(extract_stamp(&with_stamp("body", digits)), Some(digits.to_string()));
    assert!(stamp_reads_back(digits));
    assert!(stamp_reads_back("12e4567890123456789012345678901234567890"));
}

#[test]
fn stamps_are_tested_for_reading_back() {
    assert!(stamp_reads_back("2aae6c35c94fcfb415dbe95f408b9ce91ee846ed"));
    assert!(!stamp_reads_back("a`b"));
    let doc = prepared("Some *content* with ``` a fence ``` in it\n");
    assert!(doc.stamp_holds());
    let uploaded = doc.with_timestamp();
    assert!(prepared("Some *content* with ``` a fence ``` in it\n").timestamp_equals(&uploaded.markdown));
}

#[test]
fn an_upload_carries_the_files_of_the_document() {
    let mut files = UploadFiles::new();
    files.insert("/p/logo.png".to_string(), "ab12.png".to_string());
    files.insert("/p/data.csv".to_string(), "cd34.csv".to_string());
    let doc = PreparedDocument { markdown: "![l](/files/r/d/ab12.png)".to_string(), upload_files: files };
    match content_action("r", "d", "D", doc, "") {
        ContentAction::Upload { files, .. } => {
            assert_eq!(files.get("/p/logo.png").unwrap(), "ab12.png");
            assert_eq!(files.get("/p/data.csv").unwrap(), "cd34.csv");
            assert_eq!(files.entries.len(), 2);
        }
        ContentAction::Skip => panic!("content without a remote copy goes up"),
    }
}

#[test]
fn fingerprints_have_forty_digits() {
    assert_eq!(prepared("").sha1().len(), 40);
    assert_eq!(PreparedDocumentMarkdown("x".to_string()).sha1().len(), 40);
}

#[test]
fn markup_alone_is_stamped_like_a_document() {
    let md = PreparedDocumentMarkdown("body".to_string());
    let stamped = md.with_timestamp();
    assert!(md.timestamp_equals(&stamped.0));
    assert_eq!(extract_stamp(&stamped.0), Some(md.sha1()));
    assert_eq!(stamped.into_string(), format!("``` {{settings=\"timsync\"}}\nhash: {}\n```\n\n\nbody", fingerprint("body")));
}

#[test]
fn upload_files_keep_the_later_name_for_a_path() {
    let mut files = UploadFiles::new();
    assert!(files.get("/p/a.png").is_none());
    files.insert("/p/a.png".to_string(), "1.png".to_string());
    files.insert("/p/b.png".to_string(), "2.png".to_string());
    let mut more = UploadFiles::new();
    more.insert("/p/a.png".to_string(), "3.png".to_string());
    files.extend(more);
    assert_eq!(files.get("/p/a.png").unwrap(), "3.png");
    assert_eq!(files.get("/p/b.png").unwrap(), "2.png");
}
