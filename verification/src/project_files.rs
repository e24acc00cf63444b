//! The source files of a project, by kind.

use vstd::prelude::*;
use crate::front_matter::{
    contents_after_front_matter, find_front_matter_simple, front_matter_of_block, front_matter_span,
    front_matter_text,
};
use crate::path::{file_name_of, full_extension, full_extension_of};
use crate::processors::FileProcessorType;
use crate::text::{chars_string, same_text, str_chars, sub_chars};

verus! {

/// What every kind of source file offers.
pub trait ProjectFileAPI {
    /// The path of the file, in contracts.
    spec fn path_text(&self) -> Seq<char>;

    /// The contents of the file, in contracts.
    spec fn contents_text(&self) -> Seq<char>;

    /// The lines that open and close the front matter of this kind of file.
    spec fn delimiters(&self) -> (Seq<char>, Seq<char>);

    /// The processor that takes this file, in contracts.
    spec fn processor(&self) -> FileProcessorType;

    /// The path of the file.
    fn path(&self) -> (p: &String)
        ensures
            p@ == self.path_text(),
    ;

    /// Where the front matter of the file starts and ends, in characters.
    fn front_matter_pos(&self) -> (r: Option<(usize, usize)>)
        ensures
            match r {
                Some((start, end)) => front_matter_span(
                    self.contents_text(),
                    self.delimiters().0,
                    self.delimiters().1,
                ) == Some((start as int, end as int)) && start <= end <= self.contents_text().len(),
                None => front_matter_span(
                    self.contents_text(),
                    self.delimiters().0,
                    self.delimiters().1,
                ) is None,
            },
    ;

    /// The contents of the file.
    fn contents(&self) -> (c: &str)
        ensures
            c@ == self.contents_text(),
    ;

    /// The processor that takes the file.
    fn processor_type(&self) -> (t: FileProcessorType)
        ensures
            t == self.processor(),
    ;

    /// The contents of the file without its front matter.
    fn contents_without_front_matter(&self) -> (out: String)
        ensures
            out@ == contents_after_front_matter(
                self.contents_text(),
                self.delimiters().0,
                self.delimiters().1,
            ),
    {
        let chars = str_chars(self.contents());
        match self.front_matter_pos() {
            Some((_, end)) => {
                assert(chars@.subrange(end as int, chars.len() as int) == chars@.skip(end as int));
                chars_string(&chars, end, chars.len())
            },
            None => {
                assert(chars@.subrange(0, chars.len() as int) == chars@);
                chars_string(&chars, 0, chars.len())
            },
        }
    }

    /// The front matter of the file as text, without its delimiter lines.
    fn front_matter(&self) -> (out: String)
        ensures
            out@ == front_matter_text(self.contents_text(), self.delimiters().0, self.delimiters().1),
    {
        let chars = str_chars(self.contents());
        match self.front_matter_pos() {
            Some((start, end)) => {
                let block = sub_chars(&chars, start, end);
                front_matter_of_block(&block)
            },
            None => String::new(),
        }
    }
}

/// A Markdown file.
#[derive(Debug)]
pub struct MarkdownFile {
    pub path: String,
    pub contents: String,
}

impl MarkdownFile {
    /// A Markdown file at `path` with the given contents.
    pub fn new(path: String, contents: String) -> (file: MarkdownFile)
        ensures
            file.path == path,
            file.contents == contents,
    {
        MarkdownFile { path, contents }
    }
}

impl ProjectFileAPI for MarkdownFile {
    open spec fn path_text(&self) -> Seq<char> {
        self.path@
    }

    open spec fn contents_text(&self) -> Seq<char> {
        self.contents@
    }

    open spec fn delimiters(&self) -> (Seq<char>, Seq<char>) {
        ("---"@, "---"@)
    }

    open spec fn processor(&self) -> FileProcessorType {
        FileProcessorType::Markdown
    }

    fn path(&self) -> (p: &String) {
        &self.path
    }

    fn front_matter_pos(&self) -> (r: Option<(usize, usize)>) {
        find_front_matter_simple(self.contents.as_str(), "---", "---")
    }

    fn contents(&self) -> (c: &str) {
        self.contents.as_str()
    }

    fn processor_type(&self) -> (t: FileProcessorType) {
        FileProcessorType::Markdown
    }
}

/// A YAML file.
#[derive(Debug)]
pub struct YAMLFile {
    pub path: String,
    pub default_file_processor: FileProcessorType,
    pub contents: String,
}

impl YAMLFile {
    /// A YAML file at `path` with the given contents, for the given processor.
    pub fn new(path: String, default_file_processor: FileProcessorType, contents: String) -> (file:
        YAMLFile)
        ensures
            file.path == path,
            file.default_file_processor == default_file_processor,
            file.contents == contents,
    {
        YAMLFile { path, default_file_processor, contents }
    }
}

impl ProjectFileAPI for YAMLFile {
    open spec fn path_text(&self) -> Seq<char> {
        self.path@
    }

    open spec fn contents_text(&self) -> Seq<char> {
        self.contents@
    }

    open spec fn delimiters(&self) -> (Seq<char>, Seq<char>) {
        ("---"@, "---"@)
    }

    open spec fn processor(&self) -> FileProcessorType {
        self.default_file_processor
    }

    fn path(&self) -> (p: &String) {
        &self.path
    }

    fn front_matter_pos(&self) -> (r: Option<(usize, usize)>) {
        find_front_matter_simple(self.contents.as_str(), "---", "---")
    }

    fn contents(&self) -> (c: &str) {
        self.contents.as_str()
    }

    fn processor_type(&self) -> (t: FileProcessorType) {
        self.default_file_processor
    }
}

/// A style sheet. Its front matter is a comment at its start.
#[derive(Debug)]
pub struct CSSFile {
    pub path: String,
    pub contents: String,
}

impl CSSFile {
    /// A style sheet at `path` with the given contents.
    pub fn new(path: String, contents: String) -> (file: CSSFile)
        ensures
            file.path == path,
            file.contents == contents,
    {
        CSSFile { path, contents }
    }
}

impl ProjectFileAPI for CSSFile {
    open spec fn path_text(&self) -> Seq<char> {
        self.path@
    }

    open spec fn contents_text(&self) -> Seq<char> {
        self.contents@
    }

    open spec fn delimiters(&self) -> (Seq<char>, Seq<char>) {
        ("/*"@, "*/"@)
    }

    open spec fn processor(&self) -> FileProcessorType {
        FileProcessorType::StyleTheme
    }

    fn path(&self) -> (p: &String) {
        &self.path
    }

    fn front_matter_pos(&self) -> (r: Option<(usize, usize)>) {
        find_front_matter_simple(self.contents.as_str(), "/*", "*/")
    }

    fn contents(&self) -> (c: &str) {
        self.contents.as_str()
    }

    fn processor_type(&self) -> (t: FileProcessorType) {
        FileProcessorType::StyleTheme
    }
}

/// A source file of one of the kinds that the processors take.
#[derive(Debug)]
pub enum ProjectFile {
    /// A Markdown file.
    Markdown(MarkdownFile),
    /// A YAML file.
    YAML(YAMLFile),
}

/// The kind of source file that a full extension stands for.
#[derive(Clone, Copy, Debug, PartialEq, Eq, Structural)]
pub enum FileKind {
    /// `md`: a Markdown document.
    Markdown,
    /// `task.yaml` or `task.yml`: the definition of a task.
    Task,
}

/// The kind of file that a path leads to, by the full extension of its name.
/// A file without an extension, or with any other, is none of the project's.
pub open spec fn file_kind(path: Seq<char>) -> Option<FileKind> {
    match full_extension_of(file_name_of(path)) {
        None => None,
        Some(ext) => if ext == "md"@ {
            Some(FileKind::Markdown)
        } else if ext == "task.yaml"@ || ext == "task.yml"@ {
            Some(FileKind::Task)
        } else {
            None
        },
    }
}

/// Tells the kind of a file by the full extension of its name.
pub fn classify(path: &str) -> (r: Option<FileKind>)
    ensures
        r == file_kind(path@),
{
    match full_extension(path) {
        None => None,
        Some(ext) => {
            if same_text(ext.as_str(), "md") {
                Some(FileKind::Markdown)
            } else if same_text(ext.as_str(), "task.yaml") || same_text(ext.as_str(), "task.yml") {
                Some(FileKind::Task)
            } else {
                None
            }
        },
    }
}

impl ProjectFile {
    /// The source file at `path` with the given contents, if its extension
    /// makes it one of the project's.
    pub fn try_from_path(path: String, contents: String) -> (r: Option<ProjectFile>)
        ensures
            match r {
                Some(ProjectFile::Markdown(f)) => file_kind(path@) == Some(FileKind::Markdown)
                    && f.path == path && f.contents == contents,
                Some(ProjectFile::YAML(f)) => file_kind(path@) == Some(FileKind::Task) && f.path
                    == path && f.contents == contents && f.default_file_processor
                    == FileProcessorType::TaskPlugin,
                None => file_kind(path@) is None,
            },
    {
        match classify(path.as_str()) {
            Some(FileKind::Markdown) => Some(ProjectFile::Markdown(MarkdownFile::new(path, contents))),
            Some(FileKind::Task) => Some(
                ProjectFile::YAML(YAMLFile::new(path, FileProcessorType::TaskPlugin, contents)),
            ),
            None => None,
        }
    }
}

impl ProjectFileAPI for ProjectFile {
    open spec fn path_text(&self) -> Seq<char> {
        match self {
            ProjectFile::Markdown(f) => f.path_text(),
            ProjectFile::YAML(f) => f.path_text(),
        }
    }

    open spec fn contents_text(&self) -> Seq<char> {
        match self {
            ProjectFile::Markdown(f) => f.contents_text(),
            ProjectFile::YAML(f) => f.contents_text(),
        }
    }

    open spec fn delimiters(&self) -> (Seq<char>, Seq<char>) {
        match self {
            ProjectFile::Markdown(f) => f.delimiters(),
            ProjectFile::YAML(f) => f.delimiters(),
        }
    }

    open spec fn processor(&self) -> FileProcessorType {
        match self {
            ProjectFile::Markdown(f) => f.processor(),
            ProjectFile::YAML(f) => f.processor(),
        }
    }

    fn path(&self) -> (p: &String) {
        match self {
            ProjectFile::Markdown(f) => f.path(),
            ProjectFile::YAML(f) => f.path(),
        }
    }

    fn front_matter_pos(&self) -> (r: Option<(usize, usize)>) {
        match self {
            ProjectFile::Markdown(f) => f.front_matter_pos(),
            ProjectFile::YAML(f) => f.front_matter_pos(),
        }
    }

    fn contents(&self) -> (c: &str) {
        match self {
            ProjectFile::Markdown(f) => f.contents(),
            ProjectFile::YAML(f) => f.contents(),
        }
    }

    fn processor_type(&self) -> (t: FileProcessorType) {
        match self {
            ProjectFile::Markdown(f) => f.processor_type(),
            ProjectFile::YAML(f) => f.processor_type(),
        }
    }
}

/// What every file may state in its front matter.
#[derive(Debug)]
pub struct GeneralProjectFileMetadata {
    /// The processor that the file asks for.
    pub processor: Option<String>,
    /// The identifier by which other files refer to this one.
    pub uid: Option<String>,
}

} // verus!
