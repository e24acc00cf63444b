use timsync::links::{
    find_known, make_files_url, make_view_url, plan_links, ranges_ordered, remove_all,
    replace_range,
    resolve_link, resolve_relative_urls, rewrite_ranges, sort_by_start, KnownDocument, LinkError,
    LinkTarget, PlannedLink, Replacement,
};
use timsync::markdown_tree::{collect_links, find_links, DocumentLink, MarkdownNode};

fn known(pairs: &[(&str, &str)]) -> Vec<KnownDocument> {
    pairs
        .iter()
        .map(|(local, remote)| KnownDocument { local_path: local.to_string(), remote_path: remote.to_string() })
        .collect()
}

fn rep(start: usize, end: usize, text: &str) -> Replacement {
    Replacement { start, end, text: text.as_bytes().to_vec() }
}

#[test]
fn replace_range_splices_bytes() {
    assert_eq!(replace_range(&b"hello world".to_vec(), 6, 11, &b"there".to_vec()), b"hello there".to_vec());
    assert_eq!(replace_range(&b"abc".to_vec(), 1, 1, &b"XY".to_vec()), b"aXYbc".to_vec());
    assert_eq!(replace_range(&b"abc".to_vec(), 0, 3, &Vec::new()), Vec::<u8>::new());
}

#[test]
fn later_replacements_land_at_shifted_offsets() {
    let source = b"0123456789".to_vec();
    let reps = vec![rep(1, 3, "LONGER"), rep(5, 6, ""), rep(8, 9, "xy")];
    assert!(ranges_ordered(&reps, source.len()));
    assert_eq!(rewrite_ranges(&source, &reps), b"0LONGER3467xy9".to_vec());
}

#[test]
fn ranges_must_be_ordered_and_in_range() {
    assert!(ranges_ordered(&Vec::new(), 0));
    assert!(ranges_ordered(&vec![rep(0, 2, "a"), rep(2, 4, "b")], 4));
    assert!(!ranges_ordered(&vec![rep(0, 3, "a"), rep(2, 4, "b")], 4));
    assert!(!ranges_ordered(&vec![rep(3, 2, "a")], 4));
    assert!(!ranges_ordered(&vec![rep(0, 5, "a")], 4));
}

#[test]
fn links_are_found_in_document_order() {
    let md = "Intro [one](./a.md) and ![pic](img/b.png).\n\n- item [two](https://example.org/x)\n";
    let links = find_links(md);
    let found: Vec<(usize, usize, &str)> = links.iter().map(|l| (l.start, l.end, l.url.as_str())).collect();
    assert_eq!(found.len(), 3);
    for (start, end, url) in &found {
        assert_eq!(&md[*start..*end], *url);
    }
    assert_eq!(found[0].2, "./a.md");
    assert_eq!(found[1].2, "img/b.png");
    assert_eq!(found[2].2, "https://example.org/x");
}

#[test]
fn what_stands_inside_a_link_is_not_looked_at() {
    let md = "[![inner](in.png)](outer.md)";
    let links = find_links(md);
    assert_eq!(links.len(), 1);
    assert_eq!(links[0].url, "outer.md");
}

#[test]
fn links_are_collected_from_a_tree() {
    let tree = MarkdownNode::Parent(vec![
        MarkdownNode::Leaf,
        MarkdownNode::Link { end: Some(10), url: "abc".to_string() },
        MarkdownNode::Parent(vec![MarkdownNode::Image { end: Some(30), url: "x.png".to_string() }]),
        MarkdownNode::Link { end: None, url: "lost".to_string() },
        MarkdownNode::Link { end: Some(2), url: "too long".to_string() },
    ]);
    let mut out: Vec<DocumentLink> = Vec::new();
    collect_links(&tree, &mut out);
    let found: Vec<(usize, usize, &str)> = out.iter().map(|l| (l.start, l.end, l.url.as_str())).collect();
    assert_eq!(found, vec![(6, 9, "abc"), (24, 29, "x.png")]);
}

#[test]
fn link_targets_are_resolved() {
    let docs = known(&[
        ("/proj/docs/guide.md", "docs/guide"),
        ("/proj/docs/other.md", "docs/other"),
        ("/proj/index.md", "index"),
    ]);
    let keep =
        resolve_link("https://example.org/a.md", "/proj", "/proj/docs/guide.md", "kurssit/tie", &docs).unwrap();
    assert!(matches!(keep, LinkTarget::Keep));
    match resolve_link("./other.md", "/proj", "/proj/docs/guide.md", "kurssit/tie", &docs).unwrap() {
        LinkTarget::Document(url) => assert_eq!(url, "/view/kurssit/tie/docs/other"),
        other => panic!("unexpected target: {:?}", other),
    }
    match resolve_link("/index.md", "/proj", "/proj/docs/guide.md", "kurssit/tie", &docs).unwrap() {
        LinkTarget::Document(url) => assert_eq!(url, "/view/kurssit/tie/index"),
        other => panic!("unexpected target: {:?}", other),
    }
    match resolve_link("../img/logo.png", "/proj", "/proj/docs/guide.md", "kurssit/tie", &docs).unwrap() {
        LinkTarget::Asset(path) => assert_eq!(path, "/proj/img/logo.png"),
        other => panic!("unexpected target: {:?}", other),
    }
}

#[test]
fn a_link_to_a_known_file_leads_to_its_remote_path() {
    let docs = known(&[("/p/docs/guide.md", "docs/guide"), ("/p/docs/Other.md", "docs/other")]);
    let md = "[o](./Other.md)";
    let links = find_links(md);
    let planned = plan_links(&links, "/p", "/p/docs/guide.md", "course", &docs).unwrap();
    let (text, files) = resolve_relative_urls(md, &planned, "course", "docs/guide").unwrap();
    assert_eq!(text, "[o](/view/course/docs/other)");
    assert!(files.entries.is_empty());
}

#[test]
fn a_link_to_a_file_with_its_own_remote_path_leads_there() {
    let docs = known(&[("/p/docs/guide.md", "docs/guide"), ("/p/notes/week1.md", "material/first-week")]);
    match resolve_link("../notes/week1.md", "/p", "/p/docs/guide.md", "course", &docs).unwrap() {
        LinkTarget::Document(url) => assert_eq!(url, "/view/course/material/first-week"),
        other => panic!("unexpected target: {:?}", other),
    }
}

#[test]
fn a_markdown_file_outside_the_known_files_is_a_document_at_its_place() {
    let docs = known(&[("/p/docs/guide.md", "docs/guide")]);
    match resolve_link("./unknown.md", "/p", "/p/docs/guide.md", "course", &docs).unwrap() {
        LinkTarget::Document(url) => assert_eq!(url, "/view/course/docs/unknown"),
        other => panic!("unexpected target: {:?}", other),
    }
    match resolve_link("/Top/Other.md", "/p", "/p/docs/guide.md", "course", &Vec::new()).unwrap() {
        LinkTarget::Document(url) => assert_eq!(url, "/view/course/Top/Other"),
        other => panic!("unexpected target: {:?}", other),
    }
    match resolve_link("./notes.txt", "/p", "/p/docs/guide.md", "course", &docs).unwrap() {
        LinkTarget::Asset(path) => assert_eq!(path, "/p/docs/notes.txt"),
        other => panic!("unexpected target: {:?}", other),
    }
}

#[test]
fn a_known_file_that_is_no_markdown_file_leads_to_its_document() {
    let docs = known(&[("/p/tasks/one.task.yml", "tasks/one")]);
    match resolve_link("../tasks/one.task.yml", "/p", "/p/docs/guide.md", "course", &docs).unwrap() {
        LinkTarget::Document(url) => assert_eq!(url, "/view/course/tasks/one"),
        other => panic!("unexpected target: {:?}", other),
    }
}

#[test]
fn occurrences_are_taken_out_from_left_to_right() {
    assert_eq!(remove_all("file:///proj/docs/a", "file:///proj/"), "docs/a");
    assert_eq!(remove_all("abcabcab", "abc"), "ab");
    assert_eq!(remove_all("aaa", "aa"), "a");
    assert_eq!(remove_all("ababa", "aba"), "ba");
    assert_eq!(remove_all("text", ""), "text");
    assert_eq!(remove_all("", "x"), "");
    assert_eq!(remove_all("xyz", "q"), "xyz");
    for (text, pattern) in [("abcabcab", "abc"), ("aaa", "aa"), ("ababa", "aba"), ("ääkkönen", "ä")] {
        assert_eq!(remove_all(text, pattern), text.replace(pattern, ""));
    }
}

#[test]
fn known_documents_are_found_by_their_local_path() {
    let docs = known(&[("/p/a.md", "a"), ("/p/b.md", "b"), ("/p/a.md", "second")]);
    assert_eq!(find_known(&docs, "/p/a.md").map(|s| s.as_str()), Some("a"));
    assert_eq!(find_known(&docs, "/p/b.md").map(|s| s.as_str()), Some("b"));
    assert_eq!(find_known(&docs, "/p/c.md"), None);
    assert_eq!(find_known(&docs, "/p/A.md"), None);
    assert_eq!(find_known(&Vec::new(), "/p/a.md"), None);
}

#[test]
fn link_errors_name_what_is_wrong() {
    assert_eq!(
        resolve_link("a.md", "relative/dir", "/proj/docs/guide.md", "r", &Vec::new()).unwrap_err(),
        LinkError::ProjectDirNotAbsolute
    );
    assert_eq!(
        resolve_link("a.md", "/proj", "docs/guide.md", "r", &Vec::new()).unwrap_err(),
        LinkError::FilePathNotAbsolute
    );
}

#[test]
fn urls_of_the_remote_store() {
    assert_eq!(make_view_url("kurssit/tie", "docs/other"), "/view/kurssit/tie/docs/other");
    assert_eq!(make_files_url("kurssit/tie", "docs/guide", "ab12.png"), "/files/kurssit/tie/docs/guide/ab12.png");
}

#[test]
fn second_link_is_rewritten_at_its_shifted_offset() {
    let md = "See [first](./a.md) and then [second](./b.md) at the end.\n";
    let links = find_links(md);
    let docs = known(&[("/proj/docs/a.md", "docs/a"), ("/proj/docs/b.md", "docs/b")]);
    let planned = plan_links(&links, "/proj", "/proj/docs/guide.md", "root", &docs).unwrap();
    let (text, files) = resolve_relative_urls(md, &planned, "root", "docs/guide").unwrap();
    assert_eq!(
        text,
        "See [first](/view/root/docs/a) and then [second](/view/root/docs/b) at the end.\n"
    );
    assert!(files.entries.is_empty());
}

#[test]
fn shorter_and_longer_replacements_mix() {
    let md = "[x](./a-very-long-document-name-that-shrinks.md) [y](b.md) ![z](pic.png) [w](https://e.org)";
    let links = find_links(md);
    let docs = known(&[
        ("/p/a-very-long-document-name-that-shrinks.md", "a-very-long-document-name-that-shrinks"),
        ("/p/b.md", "b"),
    ]);
    let mut planned = plan_links(&links, "/p", "/p/f.md", "r", &docs).unwrap();
    assert_eq!(planned.len(), 4);
    for link in planned.iter_mut() {
        if let LinkTarget::Asset(path) = &link.target {
            assert_eq!(path, "/p/pic.png");
            link.asset = Some(b"hello world".to_vec());
        }
    }
    let (text, files) = resolve_relative_urls(md, &planned, "r", "f").unwrap();
    assert_eq!(
        text,
        "[x](/view/r/a-very-long-document-name-that-shrinks) [y](/view/r/b) ![z](/files/r/f/2aae6c35c94fcfb415dbe95f408b9ce91ee846ed.png) [w](https://e.org)"
    );
    assert_eq!(files.get("/p/pic.png").unwrap(), "2aae6c35c94fcfb415dbe95f408b9ce91ee846ed.png");
}

#[test]
fn unreadable_assets_are_left_as_they_are() {
    let md = "![z](missing.png) and [d](d.md)";
    let links = find_links(md);
    let planned = plan_links(&links, "/p", "/p/f.md", "r", &known(&[("/p/d.md", "d")])).unwrap();
    let (text, files) = resolve_relative_urls(md, &planned, "r", "f").unwrap();
    assert_eq!(text, "![z](missing.png) and [d](/view/r/d)");
    assert!(files.entries.is_empty());
}

#[test]
fn links_are_rewritten_in_the_order_of_their_starts() {
    let planned = vec![
        PlannedLink { start: 10, end: 12, target: LinkTarget::Document("a".to_string()), asset: None },
        PlannedLink { start: 2, end: 4, target: LinkTarget::Document("b".to_string()), asset: None },
    ];
    let (text, _) = resolve_relative_urls("0123456789abcdef", &planned, "r", "f").unwrap();
    assert_eq!(text, "01b456789acdef");
    let sorted = sort_by_start(vec![rep(7, 8, "c"), rep(1, 2, "a"), rep(7, 7, "d"), rep(3, 4, "b")]);
    let order: Vec<(usize, &[u8])> = sorted.iter().map(|r| (r.start, r.text.as_slice())).collect();
    assert_eq!(order, vec![(1, &b"a"[..]), (3, &b"b"[..]), (7, &b"c"[..]), (7, &b"d"[..])]);
}

#[test]
fn links_that_overlap_or_leave_the_text_give_no_result() {
    let overlapping = vec![
        PlannedLink { start: 2, end: 6, target: LinkTarget::Document("a".to_string()), asset: None },
        PlannedLink { start: 4, end: 8, target: LinkTarget::Document("b".to_string()), asset: None },
    ];
    assert!(resolve_relative_urls("0123456789abcdef", &overlapping, "r", "f").is_none());
    let beyond = vec![PlannedLink { start: 2, end: 40, target: LinkTarget::Document("b".to_string()), asset: None }];
    assert!(resolve_relative_urls("0123456789abcdef", &beyond, "r", "f").is_none());
    let split_character = vec![PlannedLink { start: 1, end: 2, target: LinkTarget::Document("b".to_string()), asset: None }];
    assert!(resolve_relative_urls("é", &split_character, "r", "f").is_none());
}

#[test]
fn non_ascii_text_around_links_is_kept() {
    let md = "Äiti [ö](./ä.md) €";
    let links = find_links(md);
    let planned = plan_links(&links, "/p", "/p/f.md", "r", &known(&[("/p/ä.md", "ä")])).unwrap();
    let (text, _) = resolve_relative_urls(md, &planned, "r", "f").unwrap();
    assert_eq!(text, "Äiti [ö](/view/r/ä) €");
    let planned = plan_links(&links, "/p", "/p/f.md", "r", &Vec::new()).unwrap();
    let (text, _) = resolve_relative_urls(md, &planned, "r", "f").unwrap();
    assert_eq!(text, "Äiti [ö](/view/r/%C3%A4) €");
}

#[test]
fn links_that_lead_nowhere_are_errors() {
    assert_eq!(
        resolve_link("///elsewhere/x.png", "/proj", "/proj/a.md", "r", &Vec::new()).unwrap_err(),
        LinkError::NotALocalFile
    );
    assert_eq!(
        resolve_link("///[bad/x.png", "/proj", "/proj/a.md", "r", &Vec::new()).unwrap_err(),
        LinkError::CannotJoin
    );
}
