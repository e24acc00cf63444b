//! The style theme processor: the Markdown processor for theme files, which
//! must have distinct names, with the envelope that makes a document a theme.

use vstd::prelude::*;
use crate::keyed::{keyed_find, keyed_map, lemma_keyed_push, Keyed};
use crate::markdown_processor::{
    add_file_outcome, DocumentSettings, MarkdownProcessor, ProcessorError,
};
use crate::path::{file_name, file_name_of};
use crate::prepared_document::PreparedDocumentMarkdown;
use crate::processors::FileProcessorType;
use crate::project_files::{ProjectFile, ProjectFileAPI};
use crate::text::{chars_string, str_chars, trim_end, trim_start, trimmed};
use crate::tim_document::{DocumentView, TIMDocument};

verus! {

/// The key under which the processor publishes the addresses of the themes.
pub const STYLE_THEMES_KEY: &'static str = "style_themes";

/// The style theme processor.
#[derive(Debug)]
pub struct StyleThemeProcessor {
    /// The processor that holds the theme documents.
    pub markdown_processor: MarkdownProcessor,
    /// The path of every theme file by the file's name.
    pub file_paths_by_name: Vec<Keyed<String>>,
}

/// A rendered style in the envelope of a theme: a settings block that
/// describes the theme by its title, and the style, without the white
/// space around it, as a block of style code.
pub open spec fn theme_markup(title: Seq<char>, style: Seq<char>) -> Seq<char> {
    "``` {settings=\"\"}\ndescription: \""@ + title + "\"\n```\n\n```scss\n"@ + trim_end(
        trim_start(style),
    ) + "\n```"@
}

/// The address of the theme document at `path` below the root folder.
pub open spec fn theme_address(folder_root: Seq<char>, path: Seq<char>) -> Seq<char> {
    "/"@ + folder_root + "/"@ + path
}

/// What taking a theme file does to the style theme processor. The name
/// of the file must differ from the names of the theme files taken before,
/// wherever they lie; else nothing changes, and the error names the file
/// that has the name and the file that was to be added. The name is registered, and
/// the file goes to the Markdown processor, whose errors are handed on.
pub open spec fn theme_add_outcome(
    before: StyleThemeProcessor,
    after: StyleThemeProcessor,
    file: ProjectFile,
    settings: DocumentSettings,
    uid: Option<String>,
    r: Result<(), ProcessorError>,
) -> bool {
    let name = file_name_of(file.path_text());
    if keyed_map(before.file_paths_by_name@).contains_key(name) {
        (r matches Err(ProcessorError::DuplicateTheme { registered, added }) && registered@
            == keyed_map(before.file_paths_by_name@)[name]@ && added@ == file.path_text()) && after
            == before
    } else {
        &&& after.file_paths_by_name@.len() == before.file_paths_by_name@.len() + 1
        &&& after.file_paths_by_name@.drop_last() == before.file_paths_by_name@
        &&& after.file_paths_by_name@.last().key@ == name
        &&& after.file_paths_by_name@.last().value@ == file.path_text()
        &&& add_file_outcome(before.markdown_processor, after.markdown_processor, file, settings, uid, r)
    }
}

impl StyleThemeProcessor {
    /// A processor without themes, for the project at `project_root` and
    /// the target of the name `sync_target`.
    pub fn new(project_root: &str, sync_target: &str) -> (p: StyleThemeProcessor)
        ensures
            p.markdown_processor.files@.len() == 0,
            p.markdown_processor.project_root@ == project_root@,
            p.markdown_processor.sync_target@ == sync_target@,
            p.file_paths_by_name@.len() == 0,
            p.wf(),
    {
        StyleThemeProcessor {
            markdown_processor: MarkdownProcessor::new(project_root, sync_target),
            file_paths_by_name: Vec::new(),
        }
    }

    /// The processor of the documents is consistent.
    pub open spec fn wf(&self) -> bool {
        self.markdown_processor.wf()
    }

    /// Takes a theme file. The name of the file must differ from the names
    /// of the theme files taken before, wherever they lie. The name is
    /// registered, and the file goes to the Markdown processor, whose
    /// errors are handed on.
    pub fn add_file(
        &mut self,
        file: ProjectFile,
        settings: DocumentSettings,
        uid: Option<String>,
    ) -> (r: Result<(), ProcessorError>)
        requires
            old(self).wf(),
        ensures
            final(self).wf(),
            theme_add_outcome(*old(self), *final(self), file, settings, uid, r),
    {
        let name = file_name(file.path().as_str());
        match keyed_find(&self.file_paths_by_name, name.as_str()) {
            Some(at) => Err(
                ProcessorError::DuplicateTheme {
                    registered: self.file_paths_by_name[at].value.clone(),
                    added: file.path().clone(),
                },
            ),
            None => {
                let entry = Keyed { key: name, value: file.path().clone() };
                proof {
                    lemma_keyed_push(self.file_paths_by_name@, entry);
                }
                let ghost names = self.file_paths_by_name@;
                self.file_paths_by_name.push(entry);
                assert(self.file_paths_by_name@.drop_last() == names);
                self.markdown_processor.add_file(file, settings, uid)
            },
        }
    }

    /// What the processor publishes into the global context: under
    /// `STYLE_THEMES_KEY`, the address of every theme document by the last
    /// segment of the document's path.
    pub fn get_processor_context(&self, folder_root: &str) -> (r: Option<
        Vec<Keyed<Vec<Keyed<String>>>>,
    >)
        ensures
            r is Some,
            r->0@.len() == 1,
            r->0@[0].key@ == STYLE_THEMES_KEY@,
            r->0@[0].value@.len() == self.markdown_processor.files@.len(),
            forall|i: int|
                0 <= i < self.markdown_processor.files@.len() ==> (#[trigger] r->0@[0].value@[i]).key@
                    == file_name_of(self.markdown_processor.files@[i].value.path@)
                    && r->0@[0].value@[i].value@ == theme_address(
                    folder_root@,
                    self.markdown_processor.files@[i].value.path@,
                ),
    {
        let files = &self.markdown_processor.files;
        let mut themes: Vec<Keyed<String>> = Vec::new();
        let mut i: usize = 0;
        while i < files.len()
            invariant
                i <= files.len(),
                files == &self.markdown_processor.files,
                themes.len() == i,
                forall|k: int|
                    0 <= k < i ==> (#[trigger] themes@[k]).key@ == file_name_of(files@[k].value.path@)
                        && themes@[k].value@ == theme_address(folder_root@, files@[k].value.path@),
            decreases files.len() - i,
        {
            let path = &files[i].value.path;
            let mut address = String::from_str("/");
            address.append(folder_root);
            address.append("/");
            address.append(path.as_str());
            themes.push(Keyed { key: file_name(path.as_str()), value: address });
            i += 1;
        }
        let mut context: Vec<Keyed<Vec<Keyed<String>>>> = Vec::new();
        context.push(Keyed { key: String::from_str(STYLE_THEMES_KEY), value: themes });
        Some(context)
    }

    /// The theme documents, one for each file, in the order in which the files came.
    pub fn get_tim_documents(&self) -> (docs: Vec<TIMDocument>)
        ensures
            docs.len() == self.markdown_processor.files@.len(),
            forall|i: int|
                0 <= i < docs.len() ==> (#[trigger] docs@[i])@ == (DocumentView {
                    processor: FileProcessorType::StyleTheme,
                    title: self.markdown_processor.files@[i].value.title@,
                    path: self.markdown_processor.files@[i].value.path@,
                    id: None,
                }),
    {
        let inner = self.markdown_processor.get_tim_documents();
        let mut docs: Vec<TIMDocument> = Vec::new();
        let mut i: usize = 0;
        while i < inner.len()
            invariant
                i <= inner.len(),
                docs.len() == i,
                inner.len() == self.markdown_processor.files@.len(),
                forall|k: int|
                    0 <= k < inner.len() ==> (#[trigger] inner@[k])@ == (DocumentView {
                        processor: FileProcessorType::Markdown,
                        title: self.markdown_processor.files@[k].value.title@,
                        path: self.markdown_processor.files@[k].value.path@,
                        id: None,
                    }),
                forall|k: int|
                    0 <= k < i ==> (#[trigger] docs@[k])@ == (DocumentView {
                        processor: FileProcessorType::StyleTheme,
                        title: self.markdown_processor.files@[k].value.title@,
                        path: self.markdown_processor.files@[k].value.path@,
                        id: None,
                    }),
            decreases inner.len() - i,
        {
            assert(inner@[i as int]@.title == self.markdown_processor.files@[i as int].value.title@);
            docs.push(
                TIMDocument {
                    processor: FileProcessorType::StyleTheme,
                    title: inner[i].title.clone(),
                    path: inner[i].path.clone(),
                    id: inner[i].id,
                },
            );
            i += 1;
        }
        docs
    }

    /// Puts a rendered style into the envelope of a theme.
    pub fn render_tim_document(&self, tim_document: &TIMDocument, processed_style: &str) -> (out:
        PreparedDocumentMarkdown)
        ensures
            out.0@ == theme_markup(tim_document.title@, processed_style@),
    {
        let style = trimmed(&str_chars(processed_style));
        let style_text = chars_string(&style, 0, style.len());
        assert(style@.subrange(0, style.len() as int) == style@);
        let mut out = String::from_str("``` {settings=\"\"}\ndescription: \"");
        out.append(tim_document.title.as_str());
        out.append("\"\n```\n\n```scss\n");
        out.append(style_text.as_str());
        out.append("\n```");
        PreparedDocumentMarkdown(out)
    }
}

} // verus!
