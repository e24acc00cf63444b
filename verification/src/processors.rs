//! The file processors behind one interface.

use vstd::prelude::*;
use crate::global_ctx::{published_view, text_entries, ProcessorContext, PublishedView};
use crate::keyed::{keyed_find, keyed_map, lemma_keyed_contains};
use crate::path::file_name_of;
use crate::style_theme_processor::{theme_address, STYLE_THEMES_KEY};
use crate::task_processor::TASKS_REF_MAP_KEY;
use crate::markdown_processor::{
    add_file_outcome, DocumentSettings, MarkdownProcessor, ProcessorError,
};
use crate::project_files::{GeneralProjectFileMetadata, ProjectFile, ProjectFileAPI};
use crate::style_theme_processor::{theme_add_outcome, StyleThemeProcessor};
use crate::task_processor::{
    holds_task, task_add_outcome, TASKS_DOCPATH, TASKS_TITLE, TaskProcessor, TaskSettings,
};
use crate::tim_document::{document_views, DocumentView, TIMDocument};

verus! {

/// Which processor owns a file or a document.
#[derive(Clone, Copy, Debug, PartialEq, Eq, Hash, Structural)]
pub enum FileProcessorType {
    /// Markdown file processor.
    Markdown,
    /// Task plugin processor.
    TaskPlugin,
    /// Style theme processor.
    StyleTheme,
}

/// What the processors read in the front matter of a file.
#[derive(Debug)]
pub struct FrontMatter {
    /// What a document may set.
    pub document: DocumentSettings,
    /// What every file may state.
    pub general: GeneralProjectFileMetadata,
    /// What a task sets, if the front matter holds it.
    pub task: Option<TaskSettings>,
}

/// What every processor offers.
pub trait FileProcessorAPI {
    /// The processor is consistent.
    spec fn valid(&self) -> bool;

    /// The kind of the processor.
    spec fn kind(&self) -> FileProcessorType;

    /// The documents that the processor makes, in contracts.
    spec fn documents(&self) -> Seq<DocumentView>;

    /// What taking a file does to the processor, in contracts.
    spec fn taken(
        &self,
        after: &Self,
        file: ProjectFile,
        front_matter: FrontMatter,
        r: Result<(), ProcessorError>,
    ) -> bool;

    /// Takes a file. On an error the processor makes the same documents as before.
    fn add_file(&mut self, file: ProjectFile, front_matter: FrontMatter) -> (r: Result<
        (),
        ProcessorError,
    >)
        requires
            old(self).valid(),
        ensures
            final(self).valid(),
            final(self).kind() == old(self).kind(),
            old(self).taken(final(self), file, front_matter, r),
            r is Err ==> final(self).documents() == old(self).documents(),
    ;

    /// What the processor publishes into the global context, in contracts.
    spec fn published(&self, folder_root: Seq<char>) -> Option<Seq<PublishedView>>;

    /// What the processor publishes into the global context, for a target
    /// with the given root folder.
    fn get_processor_context(&self, folder_root: &str) -> (r: Option<ProcessorContext>)
        requires
            self.valid(),
        ensures
            match r {
                Some(c) => self.published(folder_root@) == Some(published_view(c.entries@)),
                None => self.published(folder_root@) is None,
            },
    ;

    /// The documents that the processor makes. None has a remote identifier yet.
    fn get_tim_documents(&self) -> (docs: Vec<TIMDocument>)
        requires
            self.valid(),
        ensures
            document_views(docs@) == self.documents(),
            forall|i: int|
                0 <= i < docs.len() ==> (#[trigger] docs@[i]).processor == self.kind() && docs@[i].id
                    is None,
    ;
}

/// The documents of a Markdown processor.
pub open spec fn markdown_documents(p: MarkdownProcessor, kind: FileProcessorType) -> Seq<
    DocumentView,
> {
    Seq::new(
        p.files@.len(),
        |i: int|
            DocumentView {
                processor: kind,
                title: p.files@[i].value.title@,
                path: p.files@[i].value.path@,
                id: None,
            },
    )
}

impl FileProcessorAPI for MarkdownProcessor {
    open spec fn valid(&self) -> bool {
        self.wf()
    }

    open spec fn kind(&self) -> FileProcessorType {
        FileProcessorType::Markdown
    }

    open spec fn documents(&self) -> Seq<DocumentView> {
        markdown_documents(*self, FileProcessorType::Markdown)
    }

    open spec fn published(&self, folder_root: Seq<char>) -> Option<Seq<PublishedView>> {
        None
    }

    open spec fn taken(
        &self,
        after: &Self,
        file: ProjectFile,
        front_matter: FrontMatter,
        r: Result<(), ProcessorError>,
    ) -> bool {
        add_file_outcome(*self, *after, file, front_matter.document, front_matter.general.uid, r)
    }

    fn add_file(&mut self, file: ProjectFile, front_matter: FrontMatter) -> (r: Result<
        (),
        ProcessorError,
    >) {
        MarkdownProcessor::add_file(self, file, front_matter.document, front_matter.general.uid)
    }

    fn get_processor_context(&self, folder_root: &str) -> (r: Option<ProcessorContext>) {
        None
    }

    fn get_tim_documents(&self) -> (docs: Vec<TIMDocument>) {
        let docs = MarkdownProcessor::get_tim_documents(self);
        assert(document_views(docs@) =~= self.documents());
        docs
    }
}

impl FileProcessorAPI for TaskProcessor {
    open spec fn valid(&self) -> bool {
        self.wf()
    }

    open spec fn kind(&self) -> FileProcessorType {
        FileProcessorType::TaskPlugin
    }

    open spec fn documents(&self) -> Seq<DocumentView> {
        seq![
            DocumentView {
                processor: FileProcessorType::TaskPlugin,
                title: TASKS_TITLE@,
                path: TASKS_DOCPATH@,
                id: None,
            },
        ]
    }

    open spec fn published(&self, folder_root: Seq<char>) -> Option<Seq<PublishedView>> {
        Some(
            seq![
                PublishedView {
                    key: TASKS_REF_MAP_KEY@,
                    entries: Seq::new(
                        self.files@.len(),
                        |i: int| (self.files@[i].key@, self.files@[i].value.par_id@),
                    ),
                },
            ],
        )
    }

    open spec fn taken(
        &self,
        after: &Self,
        file: ProjectFile,
        front_matter: FrontMatter,
        r: Result<(), ProcessorError>,
    ) -> bool {
        match front_matter.task {
            Some(task) => task_add_outcome(*self, *after, file, front_matter.general, task, r),
            None => after.files == self.files && match front_matter.general.uid {
                None => r matches Err(ProcessorError::MissingUid),
                Some(uid) => if holds_task(self.files@, uid@) {
                    r matches Err(ProcessorError::DuplicateTask { uid: other, registered })
                        && other@ == uid@ && registered@ == keyed_map(
                        self.files@,
                    )[uid@].file.path_text()
                } else {
                    r matches Err(ProcessorError::MissingTaskSettings)
                },
            },
        }
    }

    /// A task file must state an identifier that no other task has, and
    /// hold the settings of a task in its front matter: the identifier is
    /// looked at first.
    fn add_file(&mut self, file: ProjectFile, front_matter: FrontMatter) -> (r: Result<
        (),
        ProcessorError,
    >) {
        match front_matter.task {
            Some(task) => TaskProcessor::add_file(self, file, front_matter.general, task),
            None => match front_matter.general.uid {
                None => Err(ProcessorError::MissingUid),
                Some(uid) => {
                    proof {
                        lemma_keyed_contains(self.files@, uid@);
                    }
                    match keyed_find(&self.files, uid.as_str()) {
                        Some(at) => {
                            let registered = self.files[at].value.file.path().clone();
                            Err(ProcessorError::DuplicateTask { uid, registered })
                        },
                        None => Err(ProcessorError::MissingTaskSettings),
                    }
                },
            },
        }
    }

    fn get_processor_context(&self, folder_root: &str) -> (r: Option<ProcessorContext>) {
        match TaskProcessor::get_processor_context(self) {
            Some(entries) => {
                assert(text_entries(entries@[0].value@) =~= self.published(
                    folder_root@,
                )->0[0].entries);
                assert(published_view(entries@) =~= self.published(folder_root@)->0);
                Some(ProcessorContext { entries })
            },
            None => None,
        }
    }

    fn get_tim_documents(&self) -> (docs: Vec<TIMDocument>) {
        let docs = TaskProcessor::get_tim_documents(self);
        assert(document_views(docs@) =~= self.documents());
        docs
    }
}

impl FileProcessorAPI for StyleThemeProcessor {
    open spec fn valid(&self) -> bool {
        self.wf()
    }

    open spec fn kind(&self) -> FileProcessorType {
        FileProcessorType::StyleTheme
    }

    open spec fn documents(&self) -> Seq<DocumentView> {
        markdown_documents(self.markdown_processor, FileProcessorType::StyleTheme)
    }

    open spec fn published(&self, folder_root: Seq<char>) -> Option<Seq<PublishedView>> {
        Some(
            seq![
                PublishedView {
                    key: STYLE_THEMES_KEY@,
                    entries: Seq::new(
                        self.markdown_processor.files@.len(),
                        |i: int|
                            (
                                file_name_of(self.markdown_processor.files@[i].value.path@),
                                theme_address(folder_root, self.markdown_processor.files@[i].value.path@),
                            ),
                    ),
                },
            ],
        )
    }

    open spec fn taken(
        &self,
        after: &Self,
        file: ProjectFile,
        front_matter: FrontMatter,
        r: Result<(), ProcessorError>,
    ) -> bool {
        theme_add_outcome(*self, *after, file, front_matter.document, front_matter.general.uid, r)
    }

    fn add_file(&mut self, file: ProjectFile, front_matter: FrontMatter) -> (r: Result<
        (),
        ProcessorError,
    >) {
        StyleThemeProcessor::add_file(self, file, front_matter.document, front_matter.general.uid)
    }

    fn get_processor_context(&self, folder_root: &str) -> (r: Option<ProcessorContext>) {
        match StyleThemeProcessor::get_processor_context(self, folder_root) {
            Some(entries) => {
                assert(text_entries(entries@[0].value@) =~= self.published(
                    folder_root@,
                )->0[0].entries);
                assert(published_view(entries@) =~= self.published(folder_root@)->0);
                Some(ProcessorContext { entries })
            },
            None => None,
        }
    }

    fn get_tim_documents(&self) -> (docs: Vec<TIMDocument>) {
        let docs = StyleThemeProcessor::get_tim_documents(self);
        assert(document_views(docs@) =~= self.documents());
        docs
    }
}

/// A processor of any kind.
#[derive(Debug)]
pub enum FileProcessor {
    /// Markdown file processor.
    Markdown(MarkdownProcessor),
    /// Task plugin processor.
    Task(TaskProcessor),
    /// Style theme processor.
    StyleTheme(StyleThemeProcessor),
}

impl FileProcessorAPI for FileProcessor {
    open spec fn valid(&self) -> bool {
        match self {
            FileProcessor::Markdown(p) => p.valid(),
            FileProcessor::Task(p) => p.valid(),
            FileProcessor::StyleTheme(p) => p.valid(),
        }
    }

    open spec fn kind(&self) -> FileProcessorType {
        match self {
            FileProcessor::Markdown(p) => p.kind(),
            FileProcessor::Task(p) => p.kind(),
            FileProcessor::StyleTheme(p) => p.kind(),
        }
    }

    open spec fn documents(&self) -> Seq<DocumentView> {
        match self {
            FileProcessor::Markdown(p) => p.documents(),
            FileProcessor::Task(p) => p.documents(),
            FileProcessor::StyleTheme(p) => p.documents(),
        }
    }

    open spec fn published(&self, folder_root: Seq<char>) -> Option<Seq<PublishedView>> {
        match self {
            FileProcessor::Markdown(p) => p.published(folder_root),
            FileProcessor::Task(p) => p.published(folder_root),
            FileProcessor::StyleTheme(p) => p.published(folder_root),
        }
    }

    open spec fn taken(
        &self,
        after: &Self,
        file: ProjectFile,
        front_matter: FrontMatter,
        r: Result<(), ProcessorError>,
    ) -> bool {
        match (self, after) {
            (FileProcessor::Markdown(p), FileProcessor::Markdown(q)) => p.taken(
                q,
                file,
                front_matter,
                r,
            ),
            (FileProcessor::Task(p), FileProcessor::Task(q)) => p.taken(q, file, front_matter, r),
            (FileProcessor::StyleTheme(p), FileProcessor::StyleTheme(q)) => p.taken(
                q,
                file,
                front_matter,
                r,
            ),
            _ => false,
        }
    }

    fn add_file(&mut self, file: ProjectFile, front_matter: FrontMatter) -> (r: Result<
        (),
        ProcessorError,
    >) {
        match self {
            FileProcessor::Markdown(p) => FileProcessorAPI::add_file(p, file, front_matter),
            FileProcessor::Task(p) => FileProcessorAPI::add_file(p, file, front_matter),
            FileProcessor::StyleTheme(p) => FileProcessorAPI::add_file(p, file, front_matter),
        }
    }

    fn get_processor_context(&self, folder_root: &str) -> (r: Option<ProcessorContext>) {
        match self {
            FileProcessor::Markdown(p) => FileProcessorAPI::get_processor_context(p, folder_root),
            FileProcessor::Task(p) => FileProcessorAPI::get_processor_context(p, folder_root),
            FileProcessor::StyleTheme(p) => FileProcessorAPI::get_processor_context(p, folder_root),
        }
    }

    fn get_tim_documents(&self) -> (docs: Vec<TIMDocument>) {
        match self {
            FileProcessor::Markdown(p) => FileProcessorAPI::get_tim_documents(p),
            FileProcessor::Task(p) => FileProcessorAPI::get_tim_documents(p),
            FileProcessor::StyleTheme(p) => FileProcessorAPI::get_tim_documents(p),
        }
    }
}

} // verus!
