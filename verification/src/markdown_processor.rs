//! The Markdown processor: one document for each file.

use vstd::prelude::*;
use crate::config::SyncConfig;
use crate::global_ctx::{handlebars_json, FrozenContext};
use crate::json::{
    lemma_members_view, members_view, merged, JsonMember, JsonValue, JsonView, MemberView,
};
use crate::numbers::{decimal_text, to_decimal};
use crate::keyed::{keyed_find, keyed_map, Keyed};
use crate::links::{
    known_views, link_replacements, link_uploads, ordered, plan_links, planned_links, planned_views,
    resolve_relative_urls, rewritten, sorted_by_start, KnownDocument, KnownView, LinkError,
    PlannedLink,
};
use crate::markdown_tree::{find_links, links_of, parsed_markdown};
use crate::path::{
    file_name_of, file_stem, file_stem_of, is_absolute, relative_to, relativized,
    without_extension, RelativizeExtension,
    WithSetExtension,
};
use crate::prepared_document::PreparedDocument;
use crate::processors::FileProcessorType;
use crate::project_files::{ProjectFile, ProjectFileAPI};
use crate::front_matter::contents_after_front_matter;
use crate::text::{
    lowercase_of, replace_char, same_text, str_chars, to_lowercase, with_char_replaced,
};
use crate::tim_document::{DocumentView, TIMDocument};
use crate::upload_files::UploadFiles;

verus! {

/// What the front matter of a document may set.
#[derive(Debug)]
pub struct DocumentSettings {
    /// The title of the document.
    pub title: Option<String>,
    /// The path of the document in the remote store.
    pub tim_path: Option<String>,
}

/// A document of the processor with the file that it is made from.
#[derive(Debug)]
pub struct TIMDocInfo {
    pub path: String,
    pub title: String,
    pub proj_file: ProjectFile,
    /// The identifier that the file's front matter states, by which other
    /// documents refer to this one.
    pub uid: Option<String>,
}

/// Why a processor cannot take a file or render a document.
#[derive(Debug)]
pub enum ProcessorError {
    /// The path of the file has no file name to take a title from.
    NoFileName(String),
    /// The file does not lie below the root of the project.
    FileOutsideProject(String),
    /// Another file already makes the document at this remote path.
    DuplicateDocumentPath(String),
    /// The file of a task states no identifier.
    MissingUid,
    /// Another task already has this identifier: the identifier, and the
    /// path of the file of the task that has it.
    DuplicateTask { uid: String, registered: String },
    /// Another theme file already has the name of this one: the path of
    /// the file that was registered under the name, and the path of the
    /// file that was to be added.
    DuplicateTheme { registered: String, added: String },
    /// The processor has no document at this path.
    UnknownDocument(String),
    /// The configuration has no target of this name.
    UnknownTarget(String),
    /// A link of the document cannot be resolved.
    UnresolvedLink(LinkError),
    /// The links of the document do not lie in it one after the other, or
    /// the rewritten document is no text.
    MalformedLinks,
    /// The rendered bodies handed in are not one for each task.
    RenderMismatch,
    /// The front matter of a task file does not hold the settings of a task.
    MissingTaskSettings,
}

/// The Markdown processor.
#[derive(Debug)]
pub struct MarkdownProcessor {
    /// The documents by their remote path, in the order in which their files came.
    pub files: Vec<Keyed<TIMDocInfo>>,
    /// The root directory of the project.
    pub project_root: String,
    /// The name of the target that the documents go to.
    pub sync_target: String,
}

/// The title of the document made from the file at `file_path`: the title
/// that its front matter sets, else the name of the file without its
/// extension. There is none for a path without a file name.
pub open spec fn document_title(title: Option<Seq<char>>, file_path: Seq<char>) -> Option<Seq<char>> {
    match title {
        Some(t) => Some(t),
        None => if file_name_of(file_path).len() == 0 || file_name_of(file_path) == seq!['.', '.'] {
            None
        } else {
            Some(file_stem_of(file_path))
        },
    }
}

/// The remote path as it is written in the front matter or taken from the
/// file's place in the project: the file's path relative to the root of the
/// project, which is `relative`, without its extension.
pub open spec fn raw_remote_path(
    tim_path: Option<Seq<char>>,
    relative: Option<Seq<char>>,
) -> Option<Seq<char>> {
    match tim_path {
        Some(p) => Some(p),
        None => match relative {
            Some(rel) => Some(without_extension(rel)),
            None => None,
        },
    }
}

/// The remote path of a document: its raw path with `/` for every `\`, in lower case.
pub open spec fn remote_path(raw: Seq<char>) -> Seq<char> {
    lowercase_of(replace_char(raw, '\\', '/'))
}

/// The views of the optional text `s`.
pub open spec fn opt_view(s: Option<String>) -> Option<Seq<char>> {
    match s {
        Some(t) => Some(t@),
        None => None,
    }
}

/// What the template engine needs to render a document.
#[derive(Debug)]
pub struct RenderInput {
    /// The template: the contents of the file after its front matter.
    pub template: String,
    /// The title of the document.
    pub title: String,
    /// The remote path of the document.
    pub path: String,
    /// The remote identifier of the document, `0` while it has none.
    pub doc_id: u64,
    /// The path of the file relative to the root of the project.
    pub local_file_path: Option<String>,
}

/// The files of a processor with the remote paths of their documents.
pub open spec fn known_files(files: Seq<Keyed<TIMDocInfo>>) -> Seq<KnownView> {
    Seq::new(
        files.len(),
        |i: int|
            KnownView { local_path: files[i].value.proj_file.path_text(), remote_path: files[i].key@ },
    )
}

/// Whether a processor holds a document under `path`.
pub open spec fn holds_document(files: Seq<Keyed<TIMDocInfo>>, path: Seq<char>) -> bool {
    exists|i: int| 0 <= i < files.len() && (#[trigger] files[i]).key@ == path
}

/// What taking a file does to a Markdown processor, where the path of the
/// file relative to the root of the project is `relative`. The file makes
/// one document, under the title and the remote path that its front matter
/// sets or that its place in the project gives. A file without a name, a
/// file outside the project and a remote path that another file has taken
/// are errors, and on an error the documents stay as they were.
pub open spec fn add_file_result(
    before: MarkdownProcessor,
    after: MarkdownProcessor,
    file: ProjectFile,
    settings: DocumentSettings,
    uid: Option<String>,
    relative: Option<Seq<char>>,
    r: Result<(), ProcessorError>,
) -> bool {
    let title = document_title(opt_view(settings.title), file.path_text());
    let raw = raw_remote_path(opt_view(settings.tim_path), relative);
    match r {
        Err(ProcessorError::NoFileName(p)) => title is None && p@ == file.path_text() && after.files
            == before.files,
        Err(ProcessorError::FileOutsideProject(p)) => title is Some && raw is None && p@
            == file.path_text() && after.files == before.files,
        Err(ProcessorError::DuplicateDocumentPath(p)) => title is Some && raw is Some && p@
            == remote_path(raw->0) && holds_document(before.files@, p@) && after.files
            == before.files,
        Err(_) => false,
        Ok(()) => {
            &&& title is Some
            &&& raw is Some
            &&& !holds_document(before.files@, remote_path(raw->0))
            &&& after.files@.len() == before.files@.len() + 1
            &&& after.files@.drop_last() == before.files@
            &&& after.files@.last().key@ == remote_path(raw->0)
            &&& after.files@.last().value.path@ == remote_path(raw->0)
            &&& after.files@.last().value.title@ == title->0
            &&& after.files@.last().value.proj_file == file
            &&& after.files@.last().value.uid == uid
        },
    }
}

/// What taking a file does to a Markdown processor: what `add_file_result`
/// says, for a path of the file relative to the root of the project that
/// relating the two may give. Where both are absolute there is one such
/// path or none, and the outcome is fixed.
pub open spec fn add_file_outcome(
    before: MarkdownProcessor,
    after: MarkdownProcessor,
    file: ProjectFile,
    settings: DocumentSettings,
    uid: Option<String>,
    r: Result<(), ProcessorError>,
) -> bool {
    exists|relative: Option<Seq<char>>|
        relativized(file.path_text(), before.project_root@, relative) && #[trigger] add_file_result(
            before,
            after,
            file,
            settings,
            uid,
            relative,
            r,
        )
}

/// A path that relating `path` to `base` may give, whatever the directory
/// is that the process works in.
pub open spec fn plain_relative(path: Seq<char>, base: Seq<char>) -> Option<Seq<char>> {
    if is_absolute(path) && is_absolute(base) {
        relative_to(path, base)
    } else {
        None
    }
}

impl MarkdownProcessor {
    /// A processor without documents.
    pub fn new(project_root: &str, sync_target: &str) -> (p: MarkdownProcessor)
        ensures
            p.files@.len() == 0,
            p.project_root@ == project_root@,
            p.sync_target@ == sync_target@,
            p.wf(),
    {
        MarkdownProcessor {
            files: Vec::new(),
            project_root: String::from_str(project_root),
            sync_target: String::from_str(sync_target),
        }
    }

    /// Every document stands under its own remote path, and no remote path is taken twice.
    pub open spec fn wf(&self) -> bool {
        &&& forall|i: int|
            0 <= i < self.files@.len() ==> (#[trigger] self.files@[i]).key@ == self.files@[i].value.path@
        &&& forall|i: int, j: int|
            0 <= i < j < self.files@.len() ==> (#[trigger] self.files@[i]).key@ != (
            #[trigger] self.files@[j]).key@
    }

    /// Takes a file: the file makes one document, under the title and the
    /// remote path that its front matter sets or that its place in the
    /// project gives. A remote path that another file has taken is an error.
    /// On an error the processor stays as it was.
    pub fn add_file(
        &mut self,
        file: ProjectFile,
        settings: DocumentSettings,
        uid: Option<String>,
    ) -> (r: Result<(), ProcessorError>)
        requires
            old(self).wf(),
        ensures
            final(self).wf(),
            final(self).project_root == old(self).project_root,
            final(self).sync_target == old(self).sync_target,
            add_file_outcome(*old(self), *final(self), file, settings, uid, r),
    {
        let ghost before = *self;
        let ghost plain = plain_relative(file.path_text(), self.project_root@);
        let ghost title_view = opt_view(settings.title);
        let ghost tim_path_view = opt_view(settings.tim_path);
        let file_path = file.path().clone();
        let title = match settings.title {
            Some(t) => t,
            None => {
                let name = crate::path::file_name(file_path.as_str());
                let chars = str_chars(name.as_str());
                let dots = chars.len() == 2 && chars[0] == '.' && chars[1] == '.';
                assert(dots == (chars@ =~= seq!['.', '.']));
                if chars.len() == 0 || dots {
                    let r = Err(ProcessorError::NoFileName(file_path));
                    assert(add_file_result(before, *self, file, settings, uid, plain, r));
                    return r;
                }
                file_stem(file_path.as_str())
            },
        };
        let ghost mut relative = plain;
        let raw = match settings.tim_path {
            Some(p) => p,
            None => match file_path.relativize(self.project_root.as_str()) {
                Some(rel) => {
                    proof {
                        relative = Some(rel@);
                    }
                    rel.with_extension_removed()
                },
                None => {
                    let r = Err(ProcessorError::FileOutsideProject(file_path));
                    assert(add_file_result(before, *self, file, settings, uid, None, r));
                    return r;
                },
            },
        };
        assert(relativized(file.path_text(), before.project_root@, relative));
        assert(raw_remote_path(tim_path_view, relative) == Some(raw@));
        let slashed = with_char_replaced(raw.as_str(), '\\', '/');
        let path = to_lowercase(slashed.as_str());
        match keyed_find(&self.files, path.as_str()) {
            Some(i) => {
                assert(self.files@[i as int].key@ == path@);
                let r = Err(ProcessorError::DuplicateDocumentPath(path));
                assert(add_file_result(before, *self, file, settings, uid, relative, r));
                r
            },
            None => {
                proof {
                    crate::keyed::lemma_keyed_contains(self.files@, path@);
                }
                let ghost files_before = self.files@;
                self.files.push(
                    Keyed {
                        key: path.clone(),
                        value: TIMDocInfo { path, title, proj_file: file, uid },
                    },
                );
                assert(self.files@.drop_last() == files_before);
                assert forall|i: int, j: int| 0 <= i < j < self.files@.len() implies (
                #[trigger] self.files@[i]).key@ != (#[trigger] self.files@[j]).key@ by {
                    if j == self.files@.len() - 1 {
                        assert(files_before[i].key@ != path@);
                    }
                }
                assert(add_file_result(before, *self, file, settings, uid, relative, Ok(())));
                Ok(())
            },
        }
    }

    /// The processor publishes nothing into the global context.
    pub fn get_processor_context(&self) -> (r: Option<Vec<Keyed<Vec<Keyed<String>>>>>)
        ensures
            r is None,
    {
        None
    }

    /// The documents of the processor, one for each file, in the order in
    /// which the files came. None has a remote identifier yet.
    pub fn get_tim_documents(&self) -> (docs: Vec<TIMDocument>)
        ensures
            docs.len() == self.files@.len(),
            forall|i: int|
                0 <= i < docs.len() ==> (#[trigger] docs@[i])@ == (DocumentView {
                    processor: FileProcessorType::Markdown,
                    title: self.files@[i].value.title@,
                    path: self.files@[i].value.path@,
                    id: None,
                }),
    {
        let mut docs: Vec<TIMDocument> = Vec::new();
        let mut i: usize = 0;
        while i < self.files.len()
            invariant
                i <= self.files.len(),
                docs.len() == i,
                forall|k: int|
                    0 <= k < i ==> (#[trigger] docs@[k])@ == (DocumentView {
                        processor: FileProcessorType::Markdown,
                        title: self.files@[k].value.title@,
                        path: self.files@[k].value.path@,
                        id: None,
                    }),
            decreases self.files.len() - i,
        {
            docs.push(
                TIMDocument::new(
                    FileProcessorType::Markdown,
                    self.files[i].value.title.clone(),
                    self.files[i].value.path.clone(),
                ),
            );
            i += 1;
        }
        docs
    }

    /// The document that stands under `path`, if there is one.
    pub fn document_info(&self, path: &str) -> (r: Option<&TIMDocInfo>)
        ensures
            match r {
                Some(info) => keyed_map(self.files@).contains_key(path@) && *info == keyed_map(
                    self.files@,
                )[path@],
                None => !keyed_map(self.files@).contains_key(path@),
            },
    {
        match keyed_find(&self.files, path) {
            Some(i) => Some(&self.files[i].value),
            None => None,
        }
    }

    /// The path of a document's file relative to the root of the project.
    pub fn get_project_file_local_path(&self, tim_document: &TIMDocument) -> (r: Option<String>)
        ensures
            !keyed_map(self.files@).contains_key(tim_document.path@) ==> r is None,
            keyed_map(self.files@).contains_key(tim_document.path@) ==> relativized(
                keyed_map(self.files@)[tim_document.path@].proj_file.path_text(),
                self.project_root@,
                opt_view(r),
            ),
    {
        match self.document_info(tim_document.path.as_str()) {
            Some(info) => info.proj_file.path().relativize(self.project_root.as_str()),
            None => None,
        }
    }

    /// What the template engine needs to render a document of this
    /// processor: the file's contents after its front matter as the
    /// template, and the document's title, path and identifier.
    pub fn render_input(&self, tim_document: &TIMDocument) -> (r: Result<RenderInput, ProcessorError>)
        ensures
            match r {
                Ok(input) => keyed_map(self.files@).contains_key(tim_document.path@) && ({
                    let file = keyed_map(self.files@)[tim_document.path@].proj_file;
                    &&& input.template@ == contents_after_front_matter(
                        file.contents_text(),
                        file.delimiters().0,
                        file.delimiters().1,
                    )
                    &&& input.title@ == tim_document.title@
                    &&& input.path@ == tim_document.path@
                    &&& input.doc_id == (match tim_document.id {
                        Some(id) => id,
                        None => 0,
                    })
                    &&& relativized(
                        file.path_text(),
                        self.project_root@,
                        opt_view(input.local_file_path),
                    )
                }),
                Err(ProcessorError::UnknownDocument(p)) => p@ == tim_document.path@ && !keyed_map(
                    self.files@,
                ).contains_key(tim_document.path@),
                Err(_) => false,
            },
    {
        match self.document_info(tim_document.path.as_str()) {
            None => Err(ProcessorError::UnknownDocument(tim_document.path.clone())),
            Some(info) => {
                let template = info.proj_file.contents_without_front_matter();
                let local_file_path = info.proj_file.path().relativize(self.project_root.as_str());
                Ok(
                    RenderInput {
                        template,
                        title: tim_document.title.clone(),
                        path: tim_document.path.clone(),
                        doc_id: match tim_document.id {
                            Some(id) => id,
                            None => 0,
                        },
                        local_file_path,
                    },
                )
            },
        }
    }

    /// The root folder of the processor's target in the given configuration.
    pub fn target_root<'a>(&self, config: &'a SyncConfig) -> (r: Result<&'a String, ProcessorError>)
        ensures
            match r {
                Ok(root) => config@.contains_key(self.sync_target@) && *root
                    == config@[self.sync_target@].folder_root,
                Err(ProcessorError::UnknownTarget(name)) => name@ == self.sync_target@
                    && !config@.contains_key(self.sync_target@),
                Err(_) => false,
            },
    {
        match config.get_target(self.sync_target.as_str()) {
            Some(target) => Ok(&target.folder_root),
            None => Err(ProcessorError::UnknownTarget(self.sync_target.clone())),
        }
    }

    /// The files of the processor with the remote paths of their documents,
    /// in the order in which the files came.
    pub fn known_documents(&self) -> (known: Vec<KnownDocument>)
        ensures
            known_views(known@) == known_files(self.files@),
    {
        let mut known: Vec<KnownDocument> = Vec::new();
        let mut i: usize = 0;
        while i < self.files.len()
            invariant
                i <= self.files.len(),
                known.len() == i,
                forall|k: int|
                    0 <= k < i ==> (#[trigger] known@[k])@ == (KnownView {
                        local_path: self.files@[k].value.proj_file.path_text(),
                        remote_path: self.files@[k].key@,
                    }),
            decreases self.files.len() - i,
        {
            known.push(
                KnownDocument {
                    local_path: self.files[i].value.proj_file.path().clone(),
                    remote_path: self.files[i].key.clone(),
                },
            );
            i += 1;
        }
        assert(known_views(known@) =~= known_files(self.files@));
        known
    }

    /// Finds the links of a rendered document and decides what their targets
    /// turn out to be: a link to a file of this processor leads to the
    /// document of that file. Only the documents of Markdown files have
    /// their links looked at.
    pub fn plan_document_links(&self, tim_document: &TIMDocument, rendered: &str, root_url: &str) -> (r:
        Result<Vec<PlannedLink>, ProcessorError>)
        ensures
            !keyed_map(self.files@).contains_key(tim_document.path@) ==> (r matches Err(
                ProcessorError::UnknownDocument(p),
            ) && p@ == tim_document.path@),
            keyed_map(self.files@).contains_key(tim_document.path@) ==> ({
                let file = keyed_map(self.files@)[tim_document.path@].proj_file;
                let links = match parsed_markdown(rendered@) {
                    Some(tree) => links_of(tree),
                    None => Seq::empty(),
                };
                match file {
                    ProjectFile::Markdown(_) => match planned_links(
                        links,
                        self.project_root@,
                        file.path_text(),
                        root_url@,
                        known_files(self.files@),
                        links.len() as int,
                    ) {
                        Ok(planned) => r is Ok && planned_views(r->Ok_0@) == planned,
                        Err(e) => (r matches Err(ProcessorError::UnresolvedLink(f)) && f == e),
                    },
                    ProjectFile::YAML(_) => r is Ok && r->Ok_0@.len() == 0,
                }
            }),
    {
        match self.document_info(tim_document.path.as_str()) {
            None => Err(ProcessorError::UnknownDocument(tim_document.path.clone())),
            Some(info) => match &info.proj_file {
                ProjectFile::Markdown(file) => {
                    let links = find_links(rendered);
                    let known = self.known_documents();
                    match plan_links(
                        &links,
                        self.project_root.as_str(),
                        file.path.as_str(),
                        root_url,
                        &known,
                    ) {
                        Ok(planned) => Ok(planned),
                        Err(e) => Err(ProcessorError::UnresolvedLink(e)),
                    }
                },
                ProjectFile::YAML(_) => Ok(Vec::new()),
            },
        }
    }

    /// Completes a rendered document: the relative targets of its links are
    /// rewritten, and the files that the links lead to join the files that
    /// the template asked to upload.
    pub fn render_tim_document(
        &self,
        tim_document: &TIMDocument,
        rendered: &str,
        discovered: UploadFiles,
        planned: &Vec<PlannedLink>,
        root_url: &str,
    ) -> (r: Result<PreparedDocument, ProcessorError>)
        ensures
            ({
                let source = vstd::utf8::encode_utf8(rendered@);
                let found = link_replacements(
                    planned_views(planned@),
                    root_url@,
                    tim_document.path@,
                    planned.len() as int,
                );
                let reps = sorted_by_start(found, found.len() as int);
                match r {
                    Ok(doc) => ordered(reps, source.len() as int) && vstd::utf8::encode_utf8(
                        doc.markdown@,
                    ) == rewritten(source, reps) && doc.upload_files@
                        == discovered@.union_prefer_right(
                        link_uploads(planned_views(planned@), planned.len() as int),
                    ),
                    Err(ProcessorError::MalformedLinks) => !ordered(reps, source.len() as int)
                        || !vstd::utf8::valid_utf8(rewritten(source, reps)),
                    Err(_) => false,
                }
            }),
    {
        match resolve_relative_urls(rendered, planned, root_url, tim_document.path.as_str()) {
            None => Err(ProcessorError::MalformedLinks),
            Some((markdown, more)) => {
                let mut upload_files = discovered;
                upload_files.extend(more);
                Ok(PreparedDocument { markdown, upload_files })
            },
        }
    }
}

/// What a rendering knows of its document, as the members of an object:
/// the title, the path, the identifier, and the path of the file.
pub open spec fn transient_json(input: RenderInput) -> JsonView {
    JsonView::Object(
        seq![
            MemberView { key: "title"@, value: JsonView::Text(input.title@) },
            MemberView { key: "path"@, value: JsonView::Text(input.path@) },
            MemberView { key: "doc_id"@, value: JsonView::Number(decimal_text(input.doc_id as nat)) },
            MemberView {
                key: "local_file_path"@,
                value: match input.local_file_path {
                    Some(p) => JsonView::Text(p@),
                    None => JsonView::Null,
                },
            },
        ],
    )
}

/// The variables of a rendering: the global data under `site`, the front
/// matter of the file merged into that, and what the rendering knows of
/// its document merged into both.
pub fn render_context(ctx: &FrozenContext, front_matter: &JsonValue, input: &RenderInput) -> (out:
    JsonValue)
    ensures
        out.view() == merged(
            merged(handlebars_json(ctx.context()), front_matter.view()),
            transient_json(*input),
        ),
{
    let mut out = ctx.handlebars_context();
    out.merge(front_matter);
    let mut members: Vec<JsonMember> = Vec::new();
    members.push(
        JsonMember { key: String::from_str("title"), value: JsonValue::Text(input.title.clone()) },
    );
    members.push(JsonMember { key: String::from_str("path"), value: JsonValue::Text(input.path.clone()) });
    members.push(
        JsonMember {
            key: String::from_str("doc_id"),
            value: JsonValue::Number(to_decimal(input.doc_id)),
        },
    );
    members.push(
        JsonMember {
            key: String::from_str("local_file_path"),
            value: match &input.local_file_path {
                Some(p) => JsonValue::Text(p.clone()),
                None => JsonValue::Null,
            },
        },
    );
    proof {
        lemma_members_view(members@, 4);
        assert(members_view(members@, 4) =~= transient_json(*input)->Object_0);
    }
    let transient = JsonValue::Object(members);
    out.merge(&transient);
    out
}

} // verus!
