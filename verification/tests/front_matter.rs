use timsync::front_matter::find_front_matter_simple;
use timsync::processors::FileProcessorType;
use timsync::project_files::{CSSFile, MarkdownFile, ProjectFile, ProjectFileAPI, YAMLFile};

#[test]
fn front_matter_is_found_between_its_delimiters() {
    let text = "---\ntitle: Home\n---\n# Body\n";
    assert_eq!(find_front_matter_simple(text, "---", "---"), Some((0, 19)));
    assert_eq!(&text[0..19], "---\ntitle: Home\n---");
}

#[test]
fn blank_lines_may_come_before_front_matter() {
    let text = "\n  \n---\na: 1\n---   \nrest";
    assert_eq!(find_front_matter_simple(text, "---", "---"), Some((4, 16)));
}

#[test]
fn no_front_matter_without_the_opening_line() {
    assert_eq!(find_front_matter_simple("# Title\n---\na\n---\n", "---", "---"), None);
    assert_eq!(find_front_matter_simple("", "---", "---"), None);
    assert_eq!(find_front_matter_simple("\n\n", "---", "---"), None);
}

#[test]
fn no_front_matter_without_the_closing_line() {
    assert_eq!(find_front_matter_simple("---\na: 1\nb: 2\n", "---", "---"), None);
    assert_eq!(find_front_matter_simple("---", "---", "---"), None);
}

#[test]
fn comment_front_matter_of_style_sheets() {
    let text = "/*\ntitle: Dark\n*/\nbody { color: red; }\n";
    assert_eq!(find_front_matter_simple(text, "/*", "*/"), Some((0, 17)));
    let file = CSSFile::new("/p/dark.scss".to_string(), text.to_string());
    assert_eq!(file.front_matter(), "\ntitle: Dark");
    assert_eq!(file.contents_without_front_matter(), "\nbody { color: red; }\n");
    assert_eq!(file.processor_type(), FileProcessorType::StyleTheme);
}

#[test]
fn markdown_file_without_front_matter_keeps_its_contents() {
    let file = MarkdownFile::new("/p/a.md".to_string(), "# Only body\n".to_string());
    assert_eq!(file.front_matter_pos(), None);
    assert_eq!(file.front_matter(), "");
    assert_eq!(file.contents_without_front_matter(), "# Only body\n");
    assert_eq!(file.contents(), "# Only body\n");
    assert_eq!(file.path(), "/p/a.md");
    assert_eq!(file.processor_type(), FileProcessorType::Markdown);
}

#[test]
fn markdown_file_with_front_matter() {
    let file = MarkdownFile::new("/p/a.md".to_string(), "---\ntitle: Home\nuid: home\n---\n# Body\n".to_string());
    assert_eq!(file.front_matter(), "\ntitle: Home\nuid: home");
    assert_eq!(file.contents_without_front_matter(), "\n# Body\n");
}

#[test]
fn project_file_is_made_by_extension() {
    let md = ProjectFile::try_from_path("/p/a.md".to_string(), "x".to_string()).unwrap();
    assert!(matches!(md, ProjectFile::Markdown(_)));
    assert_eq!(md.processor_type(), FileProcessorType::Markdown);
    let task = ProjectFile::try_from_path("/p/t.task.yml".to_string(), "---\nuid: t\n---\nrows: 1\n".to_string()).unwrap();
    assert!(matches!(task, ProjectFile::YAML(_)));
    assert_eq!(task.processor_type(), FileProcessorType::TaskPlugin);
    assert_eq!(task.front_matter(), "\nuid: t");
    assert_eq!(task.contents_without_front_matter(), "\nrows: 1\n");
    assert!(ProjectFile::try_from_path("/p/a.txt".to_string(), String::new()).is_none());
    assert!(ProjectFile::try_from_path("/p/noext".to_string(), String::new()).is_none());
    let yaml = YAMLFile::new("/p/x.yaml".to_string(), FileProcessorType::TaskPlugin, "k: v".to_string());
    assert_eq!(yaml.processor_type(), FileProcessorType::TaskPlugin);
}
