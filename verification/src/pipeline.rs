//! The pipeline of a synchronization run up to the creation of the remote
//! tree: the files go to their processors, the processors name their
//! documents, and the global context is built and frozen.

use vstd::prelude::*;
use crate::config::SyncTarget;
use crate::global_ctx::{
    doc_map, identified, info_of, published_view, FrozenContext, GlobalContext, IdentifiedDocument,
    PublishedView,
};
use crate::json::JsonValue;
use crate::keyed::{keyed_map, Keyed};
use crate::markdown_processor::{opt_view, MarkdownProcessor, ProcessorError, TIMDocInfo};
use crate::processors::{FileProcessor, FileProcessorAPI, FileProcessorType, FrontMatter};
use crate::project_files::{ProjectFile, ProjectFileAPI};
use crate::task_processor::{TASKS_UID, TaskProcessor};
use crate::tim_document::{document_views, DocumentView, TIMDocument};

verus! {

/// The options of a synchronization run.
#[derive(Debug)]
pub struct SyncOpts {
    /// The name of the target to synchronize to.
    pub target: String,
}

impl SyncOpts {
    /// The options for the target of the given name, `default` where none is given.
    pub fn new(target: Option<String>) -> (opts: SyncOpts)
        ensures
            opts.target@ == (match target {
                Some(name) => name@,
                None => "default"@,
            }),
    {
        match target {
            Some(name) => SyncOpts { target: name },
            None => SyncOpts { target: String::from_str("default") },
        }
    }
}

/// The pipeline of a synchronization run.
#[derive(Debug)]
pub struct SyncPipeline {
    /// The root directory of the project.
    pub project_root: String,
    /// The name of the target.
    pub sync_target: String,
    /// The processors, one of each kind at most.
    pub processors: Vec<FileProcessor>,
}

/// The documents of the first `n` processors, processor after processor.
pub open spec fn all_documents(processors: Seq<FileProcessor>, n: int) -> Seq<DocumentView>
    decreases n,
{
    if n <= 0 {
        Seq::empty()
    } else {
        all_documents(processors, n - 1) + processors[n - 1].documents()
    }
}

/// The identifier that the document at `path` states among the documents `files`.
pub open spec fn document_uid_in(files: Seq<Keyed<TIMDocInfo>>, path: Seq<char>) -> Option<String> {
    if keyed_map(files).contains_key(path) {
        keyed_map(files)[path].uid
    } else {
        None
    }
}

/// What the first `n` processors publish for a target with the given root
/// folder, processor after processor.
pub open spec fn all_published(processors: Seq<FileProcessor>, folder_root: Seq<char>, n: int) -> Seq<
    PublishedView,
>
    decreases n,
{
    if n <= 0 {
        Seq::empty()
    } else {
        match processors[n - 1].published(folder_root) {
            Some(p) => all_published(processors, folder_root, n - 1) + p,
            None => all_published(processors, folder_root, n - 1),
        }
    }
}

impl SyncPipeline {
    /// Every processor is consistent, and no two are of one kind.
    pub open spec fn wf(&self) -> bool {
        &&& forall|i: int| 0 <= i < self.processors@.len() ==> (#[trigger] self.processors@[i]).valid()
        &&& forall|i: int, j: int|
            0 <= i < j < self.processors@.len() ==> (#[trigger] self.processors@[i]).kind() != (
            #[trigger] self.processors@[j]).kind()
    }

    /// A pipeline with the Markdown processor and no files.
    pub fn new(project_root: &str, sync_target: &str) -> (p: SyncPipeline)
        ensures
            p.wf(),
            p.project_root@ == project_root@,
            p.sync_target@ == sync_target@,
            p.processors@.len() == 1,
            p.processors@[0].kind() == FileProcessorType::Markdown,
            p.processors@[0].documents().len() == 0,
    {
        let mut processors: Vec<FileProcessor> = Vec::new();
        processors.push(FileProcessor::Markdown(MarkdownProcessor::new(project_root, sync_target)));
        SyncPipeline {
            project_root: String::from_str(project_root),
            sync_target: String::from_str(sync_target),
            processors,
        }
    }

    /// Adds a processor behind those that the pipeline has. A processor of
    /// a kind that the pipeline already has is not added, and handed back.
    pub fn register(&mut self, processor: FileProcessor) -> (r: Option<FileProcessor>)
        requires
            old(self).wf(),
            processor.valid(),
        ensures
            final(self).wf(),
            final(self).project_root == old(self).project_root,
            final(self).sync_target == old(self).sync_target,
            match r {
                Some(back) => back == processor && final(self).processors == old(self).processors
                    && exists|i: int|
                    0 <= i < old(self).processors@.len() && (#[trigger] old(self).processors@[i]).kind() == processor.kind(),
                None => final(self).processors@ == old(self).processors@.push(processor) && forall|
                    i: int,
                |
                    0 <= i < old(self).processors@.len() ==> (#[trigger] old(self).processors@[i]).kind() != processor.kind(),
            },
    {
        let kind = match &processor {
            FileProcessor::Markdown(_) => FileProcessorType::Markdown,
            FileProcessor::Task(_) => FileProcessorType::TaskPlugin,
            FileProcessor::StyleTheme(_) => FileProcessorType::StyleTheme,
        };
        match self.processor_index(kind) {
            Some(i) => {
                assert(self.processors@[i as int].kind() == processor.kind());
                Some(processor)
            },
            None => {
                self.processors.push(processor);
                None
            },
        }
    }

    /// The place of the processor of the given kind, if the pipeline has one.
    pub fn processor_index(&self, kind: FileProcessorType) -> (r: Option<usize>)
        requires
            self.wf(),
        ensures
            match r {
                Some(i) => i < self.processors@.len() && self.processors@[i as int].kind() == kind,
                None => forall|i: int|
                    0 <= i < self.processors@.len() ==> (#[trigger] self.processors@[i]).kind()
                        != kind,
            },
    {
        let mut i: usize = 0;
        while i < self.processors.len()
            invariant
                i <= self.processors.len(),
                forall|k: int| 0 <= k < i ==> (#[trigger] self.processors@[k]).kind() != kind,
            decreases self.processors.len() - i,
        {
            let found = match &self.processors[i] {
                FileProcessor::Markdown(_) => FileProcessorType::Markdown,
                FileProcessor::Task(_) => FileProcessorType::TaskPlugin,
                FileProcessor::StyleTheme(_) => FileProcessorType::StyleTheme,
            };
            if found == kind {
                return Some(i);
            }
            i += 1;
        }
        None
    }

    /// Hands a file to the processor of its kind. A file whose kind has no
    /// processor is passed over. The other processors stay as they are.
    pub fn add_file(&mut self, file: ProjectFile, front_matter: FrontMatter) -> (r: Result<
        (),
        ProcessorError,
    >)
        requires
            old(self).wf(),
        ensures
            final(self).wf(),
            final(self).processors@.len() == old(self).processors@.len(),
            forall|i: int|
                0 <= i < old(self).processors@.len() && old(self).processors@[i].kind()
                    != file.processor() ==> (#[trigger] final(self).processors@[i]) == old(self).processors@[i],
            forall|i: int|
                0 <= i < old(self).processors@.len() ==> (#[trigger] final(self).processors@[i]).kind()
                    == old(self).processors@[i].kind(),
            forall|i: int|
                0 <= i < old(self).processors@.len() && old(self).processors@[i].kind()
                    == file.processor() ==> (#[trigger] old(self).processors@[i]).taken(
                    &final(self).processors@[i],
                    file,
                    front_matter,
                    r,
                ),
            (forall|i: int|
                0 <= i < old(self).processors@.len() ==> (#[trigger] old(self).processors@[i]).kind()
                    != file.processor()) ==> r is Ok,
            r is Err ==> forall|i: int|
                0 <= i < old(self).processors@.len() ==> (#[trigger] final(self).processors@[i]).documents() == old(self).processors@[i].documents(),

    {
        let kind = file.processor_type();
        match self.processor_index(kind) {
            None => Ok(()),
            Some(i) => {
                let ghost before = self.processors@;
                let r = self.processors[i].add_file(file, front_matter);
                proof {
                    assert forall|a: int, b: int| 0 <= a < b < self.processors@.len() implies (
                    #[trigger] self.processors@[a]).kind() != (#[trigger] self.processors@[b]).kind() by {
                        assert(self.processors@[a].kind() == before[a].kind());
                        assert(self.processors@[b].kind() == before[b].kind());
                    }
                }
                r
            },
        }
    }

    /// The documents of all processors, processor after processor.
    pub fn get_tim_documents(&self) -> (docs: Vec<TIMDocument>)
        requires
            self.wf(),
        ensures
            document_views(docs@) == all_documents(self.processors@, self.processors@.len() as int),
    {
        let mut docs: Vec<TIMDocument> = Vec::new();
        let mut i: usize = 0;
        assert(document_views(docs@) =~= all_documents(self.processors@, 0));
        while i < self.processors.len()
            invariant
                i <= self.processors.len(),
                self.wf(),
                document_views(docs@) == all_documents(self.processors@, i as int),
            decreases self.processors.len() - i,
        {
            let ghost before = document_views(docs@);
            let mut more = self.processors[i].get_tim_documents();
            let ghost added = document_views(more@);
            docs.append(&mut more);
            assert(document_views(docs@) =~= before + added);
            i += 1;
        }
        docs
    }

    /// Builds the global context and freezes it: the static data of the
    /// project, the documents with their remote identifiers, the host and
    /// the root folder of the target, and what the processors publish.
    pub fn update_project_context(
        &self,
        documents: &Vec<IdentifiedDocument>,
        site: JsonValue,
        target: &SyncTarget,
    ) -> (frozen: FrozenContext)
        requires
            self.wf(),
        ensures
            frozen.context().site == site,
            frozen.context().host@ == target.host@,
            frozen.context().base_path@ == target.folder_root@,
            frozen.context().docs@.len() == documents@.len(),
            forall|i: int|
                0 <= i < documents@.len() ==> (#[trigger] frozen.context().docs@[i])@ == info_of(
                    documents@[i].document@,
                ),
            doc_map(frozen.context().doc@) == identified(documents@, documents@.len() as int),
            published_view(frozen.context().processor_extras@) == all_published(
                self.processors@,
                target.folder_root@,
                self.processors@.len() as int,
            ),
    {
        let mut context = GlobalContext::new(site);
        assert(published_view(context.processor_extras@) =~= Seq::<PublishedView>::empty());
        context.insert_documents(documents);
        context.insert_target(target.host.as_str(), target.folder_root.as_str());
        let mut i: usize = 0;
        while i < self.processors.len()
            invariant
                i <= self.processors.len(),
                self.wf(),
                context.site == site,
                context.host@ == target.host@,
                context.base_path@ == target.folder_root@,
                context.docs@.len() == documents@.len(),
                forall|k: int|
                    0 <= k < documents@.len() ==> (#[trigger] context.docs@[k])@ == info_of(
                        documents@[k].document@,
                    ),
                doc_map(context.doc@) == identified(documents@, documents@.len() as int),
                published_view(context.processor_extras@) == all_published(
                    self.processors@,
                    target.folder_root@,
                    i as int,
                ),
            decreases self.processors.len() - i,
        {
            match self.processors[i].get_processor_context(target.folder_root.as_str()) {
                Some(data) => {
                    context.extend(data);
                },
                None => {},
            }
            i += 1;
        }
        context.freeze()
    }

    /// The identifier by which other documents refer to a document, in
    /// contracts: for a document of a file, the one that the file's front
    /// matter states; for the document of the tasks, `TASKS_UID`; none for
    /// a document whose processor the pipeline does not have.
    pub open spec fn uid_of(&self, document: TIMDocument) -> Option<Seq<char>> {
        if exists|i: int|
            0 <= i < self.processors@.len() && (#[trigger] self.processors@[i]).kind()
                == document.processor {
            let i = choose|i: int|
                0 <= i < self.processors@.len() && (#[trigger] self.processors@[i]).kind()
                    == document.processor;
            match self.processors@[i] {
                FileProcessor::Markdown(p) => opt_view(document_uid_in(p.files@, document.path@)),
                FileProcessor::StyleTheme(p) => opt_view(
                    document_uid_in(p.markdown_processor.files@, document.path@),
                ),
                FileProcessor::Task(_) => Some(TASKS_UID@),
            }
        } else {
            None
        }
    }

    /// The identifier by which other documents refer to a document.
    pub fn document_uid(&self, document: &TIMDocument) -> (r: Option<String>)
        requires
            self.wf(),
        ensures
            opt_view(r) == self.uid_of(*document),
    {
        match self.processor_index(document.processor) {
            None => None,
            Some(i) => {
                proof {
                    let k = choose|k: int|
                        0 <= k < self.processors@.len() && (#[trigger] self.processors@[k]).kind()
                            == document.processor;
                    assert(k == i) by {
                        if k < i {
                            assert(self.processors@[k].kind() != self.processors@[i as int].kind());
                        }
                        if i < k {
                            assert(self.processors@[i as int].kind() != self.processors@[k].kind());
                        }
                    }
                }
                match &self.processors[i] {
                    FileProcessor::Markdown(p) => match p.document_info(document.path.as_str()) {
                        Some(info) => info.uid.clone(),
                        None => None,
                    },
                    FileProcessor::StyleTheme(p) => match p.markdown_processor.document_info(
                        document.path.as_str(),
                    ) {
                        Some(info) => info.uid.clone(),
                        None => None,
                    },
                    FileProcessor::Task(_) => Some(String::from_str(TASKS_UID)),
                }
            },
        }
    }

    /// Pairs every document with the identifier by which others refer to it.
    pub fn identify_documents(&self, documents: Vec<TIMDocument>) -> (out: Vec<IdentifiedDocument>)
        requires
            self.wf(),
        ensures
            out@.len() == documents@.len(),
            forall|i: int|
                0 <= i < out@.len() ==> (#[trigger] out@[i]).document == documents@[i] && opt_view(
                    out@[i].uid,
                ) == self.uid_of(documents@[i]),
    {
        let mut out: Vec<IdentifiedDocument> = Vec::new();
        let ghost all = documents@;
        for document in it: documents
            invariant
                self.wf(),
                it.seq() == all,
                out@.len() == it.index(),
                forall|i: int|
                    0 <= i < out@.len() ==> (#[trigger] out@[i]).document == all[i] && opt_view(
                        out@[i].uid,
                    ) == self.uid_of(all[i]),
        {
            let uid = self.document_uid(&document);
            out.push(IdentifiedDocument { uid, document });
        }
        out
    }
}

/// A sink of rendered text: it collects what is written as bytes.
#[derive(Debug)]
pub struct WriteOutput {
    /// The bytes written so far.
    pub write: Vec<u8>,
}

impl WriteOutput {
    /// A sink that continues the bytes `write`.
    pub fn new(write: Vec<u8>) -> (out: WriteOutput)
        ensures
            out.write == write,
    {
        WriteOutput { write }
    }

    /// Writes a piece of text: its bytes follow those written before.
    pub fn write(&mut self, seg: &str)
        ensures
            final(self).write@ == old(self).write@ + vstd::utf8::encode_utf8(seg@),
    {
        let mut bytes = seg.as_bytes_vec();
        self.write.append(&mut bytes);
    }
}

} // verus!
