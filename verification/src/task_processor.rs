//! The task aggregator: every task file becomes a plugin paragraph of one
//! document that holds all tasks of the project.

use vstd::prelude::*;
use crate::front_matter::contents_after_front_matter;
use crate::global_ctx::{handlebars_json, FrozenContext};
use crate::json::{
    lemma_members_view, members_view, merged, JsonMember, JsonValue, JsonView, MemberView,
};
use crate::keyed::{keyed_find, keyed_map, lemma_keyed_contains, Keyed};
use crate::markdown_processor::{opt_view, ProcessorError};
use crate::path::{relativized, RelativizeExtension};
use crate::prepared_document::PreparedDocument;
use crate::processors::FileProcessorType;
use crate::project_files::{GeneralProjectFileMetadata, ProjectFile, ProjectFileAPI};
use crate::tim_client::{hashed_par_id, hashed_par_id_text};
use crate::text::{lemma_lex_less_total, lemma_lex_less_transitive, lex_less, text_less};
use crate::tim_document::{DocumentView, TIMDocument};
use crate::upload_files::{upload_map, UploadFile, UploadFiles};

verus! {

/// The path of the document that holds the tasks.
pub const TASKS_DOCPATH: &'static str = "_project_tasks";

/// The title of the document that holds the tasks.
pub const TASKS_TITLE: &'static str = "Project tasks";

/// The identifier of the document that holds the tasks.
pub const TASKS_UID: &'static str = "_timsync_tasks";

/// The key under which the processor publishes the paragraph of every task.
pub const TASKS_REF_MAP_KEY: &'static str = "_timsync_tasks_ref_map";

/// An attribute of a plugin paragraph.
#[derive(Debug)]
pub struct TaskAttribute {
    pub name: String,
    /// The value as it is written between the quotes.
    pub value: String,
}

/// What the front matter of a task file sets.
#[derive(Debug)]
pub struct TaskSettings {
    /// The plugin that runs the task.
    pub plugin: String,
    /// More attributes of the plugin paragraph, in their order.
    pub plugin_attributes: Option<Vec<TaskAttribute>>,
    /// The classes of the plugin paragraph.
    pub class: Option<Vec<String>>,
}

/// A task with its file.
#[derive(Debug)]
pub struct TaskInfo {
    /// The identifier of the task's paragraph in the document.
    pub par_id: String,
    pub file: ProjectFile,
    pub task_settings: TaskSettings,
}

/// The task aggregator.
#[derive(Debug)]
pub struct TaskProcessor {
    /// The tasks by their identifier, in ascending order of the identifiers.
    pub files: Vec<Keyed<TaskInfo>>,
    /// The root directory of the project.
    pub project_root: String,
}

/// The rendered body of a task and the files that its template asked to upload.
#[derive(Debug)]
pub struct RenderedTask {
    pub body: String,
    pub upload_files: UploadFiles,
}

/// What the template engine needs to render the body of a task.
#[derive(Debug)]
pub struct TaskRenderInput {
    /// The identifier of the task.
    pub uid: String,
    /// The template: the contents of the task file after its front matter.
    pub template: String,
    /// The path of the file relative to the root of the project.
    pub local_file_path: Option<String>,
}

/// The attributes `name="value" `, one after the other, of the first `n` attributes.
pub open spec fn attributes_text(attrs: Seq<TaskAttribute>, n: int) -> Seq<char>
    decreases n,
{
    if n <= 0 {
        Seq::empty()
    } else {
        attributes_text(attrs, n - 1) + attrs[n - 1].name@ + "=\""@ + attrs[n - 1].value@ + "\" "@
    }
}

/// The first `n` classes, ` .` between them.
pub open spec fn joined_classes(classes: Seq<String>, n: int) -> Seq<char>
    decreases n,
{
    if n <= 0 {
        Seq::empty()
    } else if n == 1 {
        classes[0]@
    } else {
        joined_classes(classes, n - 1) + " ."@ + classes[n - 1]@
    }
}

/// The line that opens the paragraph of a task: its identifier, the
/// identifier of the paragraph, the plugin, the attributes and the classes.
pub open spec fn paragraph_head(uid: Seq<char>, info: TaskInfo) -> Seq<char> {
    "``` {#"@ + uid + "  id=\""@ + info.par_id@ + "\" plugin=\""@ + info.task_settings.plugin@
        + "\" "@ + (match info.task_settings.plugin_attributes {
        Some(attrs) => attributes_text(attrs@, attrs@.len() as int),
        None => Seq::empty(),
    }) + (match info.task_settings.class {
        Some(classes) => "."@ + joined_classes(classes@, classes@.len() as int) + " "@,
        None => Seq::empty(),
    }) + "}\n\n"@
}

/// The paragraph of a task: its opening line, its rendered body and the closing fence.
pub open spec fn task_paragraph(uid: Seq<char>, info: TaskInfo, body: Seq<char>) -> Seq<char> {
    paragraph_head(uid, info) + body + "\n\n```\n\n"@
}

/// The paragraphs of the first `n` tasks, in the order of the tasks.
pub open spec fn tasks_markup(tasks: Seq<Keyed<TaskInfo>>, bodies: Seq<RenderedTask>, n: int) -> Seq<
    char,
>
    decreases n,
{
    if n <= 0 {
        Seq::empty()
    } else {
        tasks_markup(tasks, bodies, n - 1) + task_paragraph(
            tasks[n - 1].key@,
            tasks[n - 1].value,
            bodies[n - 1].body@,
        )
    }
}

/// The files to upload for the first `n` tasks: those of a later task over
/// those of an earlier one.
pub open spec fn tasks_uploads(bodies: Seq<RenderedTask>, n: int) -> Map<Seq<char>, Seq<char>>
    decreases n,
{
    if n <= 0 {
        Map::empty()
    } else {
        tasks_uploads(bodies, n - 1).union_prefer_right(bodies[n - 1].upload_files@)
    }
}

/// The identifiers stand in ascending order.
pub open spec fn ascending(tasks: Seq<Keyed<TaskInfo>>) -> bool {
    forall|i: int, j: int|
        0 <= i < j < tasks.len() ==> lex_less((#[trigger] tasks[i]).key@, (#[trigger] tasks[j]).key@)
}

/// Writes the attributes of a plugin paragraph.
fn write_attributes(out: &mut String, attrs: &Vec<TaskAttribute>)
    ensures
        final(out)@ == old(out)@ + attributes_text(attrs@, attrs@.len() as int),
{
    let mut i: usize = 0;
    assert(out@ =~= old(out)@ + attributes_text(attrs@, 0));
    while i < attrs.len()
        invariant
            i <= attrs.len(),
            out@ == old(out)@ + attributes_text(attrs@, i as int),
        decreases attrs.len() - i,
    {
        let ghost before = out@;
        out.append(attrs[i].name.as_str());
        out.append("=\"");
        out.append(attrs[i].value.as_str());
        out.append("\" ");
        assert(out@ =~= old(out)@ + attributes_text(attrs@, i + 1));
        i += 1;
    }
}

/// Writes the classes of a plugin paragraph, ` .` between them.
fn write_classes(out: &mut String, classes: &Vec<String>)
    ensures
        final(out)@ == old(out)@ + joined_classes(classes@, classes@.len() as int),
{
    let mut i: usize = 0;
    assert(out@ =~= old(out)@ + joined_classes(classes@, 0));
    while i < classes.len()
        invariant
            i <= classes.len(),
            out@ == old(out)@ + joined_classes(classes@, i as int),
        decreases classes.len() - i,
    {
        if i > 0 {
            out.append(" .");
        }
        out.append(classes[i].as_str());
        assert(out@ =~= old(out)@ + joined_classes(classes@, i + 1));
        i += 1;
    }
}

/// Writes the plugin paragraph of a task.
fn write_paragraph(out: &mut String, uid: &str, info: &TaskInfo, body: &str)
    ensures
        final(out)@ == old(out)@ + task_paragraph(uid@, *info, body@),
{
    out.append("``` {#");
    out.append(uid);
    out.append("  id=\"");
    out.append(info.par_id.as_str());
    out.append("\" plugin=\"");
    out.append(info.task_settings.plugin.as_str());
    out.append("\" ");
    match &info.task_settings.plugin_attributes {
        Some(attrs) => {
            write_attributes(out, attrs);
        },
        None => {},
    }
    match &info.task_settings.class {
        Some(classes) => {
            out.append(".");
            write_classes(out, classes);
            out.append(" ");
        },
        None => {},
    }
    out.append("}\n\n");
    out.append(body);
    out.append("\n\n```\n\n");
    assert(out@ =~= old(out)@ + task_paragraph(uid@, *info, body@));
}

/// Whether a task has the identifier `uid`.
pub open spec fn holds_task(files: Seq<Keyed<TaskInfo>>, uid: Seq<char>) -> bool {
    exists|i: int| 0 <= i < files.len() && (#[trigger] files[i]).key@ == uid
}

/// What taking a task file does to the task aggregator. The file must state
/// an identifier, and no other task may have it. The task takes its place
/// among the others by its identifier, and its paragraph gets the
/// identifier that the task's identifier gives. On an error the tasks stay
/// as they were.
pub open spec fn task_add_outcome(
    before: TaskProcessor,
    after: TaskProcessor,
    file: ProjectFile,
    metadata: GeneralProjectFileMetadata,
    task_settings: TaskSettings,
    r: Result<(), ProcessorError>,
) -> bool {
    match r {
        Err(ProcessorError::MissingUid) => metadata.uid is None && after.files == before.files,
        Err(ProcessorError::DuplicateTask { uid, registered }) => metadata.uid is Some && uid@
            == metadata.uid->0@ && holds_task(before.files@, uid@) && registered@ == keyed_map(
            before.files@,
        )[uid@].file.path_text() && after.files == before.files,
        Err(_) => false,
        Ok(()) => metadata.uid is Some && !holds_task(before.files@, metadata.uid->0@) && exists|
            k: int,
        |
            0 <= k <= before.files@.len() && #[trigger] after.files@ == before.files@.insert(
                k,
                after.files@[k],
            ) && after.files@[k].key@ == metadata.uid->0@ && after.files@[k].value.par_id@
                == hashed_par_id_text(metadata.uid->0@) && after.files@[k].value.file == file
                && after.files@[k].value.task_settings == task_settings,
    }
}

impl TaskProcessor {
    /// A processor without tasks.
    pub fn new(project_root: &str) -> (p: TaskProcessor)
        ensures
            p.files@.len() == 0,
            p.project_root@ == project_root@,
            p.wf(),
    {
        TaskProcessor { files: Vec::new(), project_root: String::from_str(project_root) }
    }

    /// The tasks stand in ascending order of their identifiers, so no
    /// identifier is taken twice.
    pub open spec fn wf(&self) -> bool {
        ascending(self.files@)
    }

    /// Takes a task file. The file must state an identifier, and no other
    /// task may have it. The task takes its place among the others by its
    /// identifier, and its paragraph gets the identifier that the task's
    /// identifier gives. On an error the processor stays as it was.
    pub fn add_file(
        &mut self,
        file: ProjectFile,
        metadata: GeneralProjectFileMetadata,
        task_settings: TaskSettings,
    ) -> (r: Result<(), ProcessorError>)
        requires
            old(self).wf(),
        ensures
            final(self).wf(),
            final(self).project_root == old(self).project_root,
            task_add_outcome(*old(self), *final(self), file, metadata, task_settings, r),
    {
        let uid = match metadata.uid {
            Some(uid) => uid,
            None => {
                return Err(ProcessorError::MissingUid);
            },
        };
        proof {
            lemma_keyed_contains(self.files@, uid@);
        }
        match keyed_find(&self.files, uid.as_str()) {
            Some(at) => {
                let registered = self.files[at].value.file.path().clone();
                return Err(ProcessorError::DuplicateTask { uid, registered });
            },
            None => {},
        }
        let mut k: usize = 0;
        while k < self.files.len() && text_less(self.files[k].key.as_str(), uid.as_str())
            invariant
                k <= self.files.len(),
                forall|i: int| 0 <= i < k ==> lex_less((#[trigger] self.files@[i]).key@, uid@),
            decreases self.files.len() - k,
        {
            k += 1;
        }
        let ghost before = self.files@;
        let par_id = hashed_par_id(Some(uid.as_str()));
        let entry = Keyed { key: uid, value: TaskInfo { par_id, file, task_settings } };
        proof {
            assert forall|j: int| k <= j < before.len() implies lex_less(
                entry.key@,
                (#[trigger] before[j]).key@,
            ) by {
                lemma_lex_less_total(before[k as int].key@, entry.key@);
                assert(before[k as int].key@ != entry.key@);
                if j > k {
                    lemma_lex_less_transitive(entry.key@, before[k as int].key@, before[j].key@);
                }
            }
        }
        self.files.insert(k, entry);
        proof {
            let after = self.files@;
            assert forall|i: int, j: int| 0 <= i < j < after.len() implies lex_less(
                (#[trigger] after[i]).key@,
                (#[trigger] after[j]).key@,
            ) by {
                if j < k {
                    assert(after[i] == before[i] && after[j] == before[j]);
                } else if j == k {
                    assert(after[i] == before[i]);
                } else if i < k {
                    assert(after[i] == before[i] && after[j] == before[j - 1]);
                } else if i == k {
                    assert(after[j] == before[j - 1]);
                } else {
                    assert(after[i] == before[i - 1] && after[j] == before[j - 1]);
                }
            }
            assert(after == before.insert(k as int, after[k as int]));
        }
        Ok(())
    }

    /// What the processor publishes into the global context: under
    /// `TASKS_REF_MAP_KEY`, the paragraph identifier of every task by the
    /// task's identifier.
    pub fn get_processor_context(&self) -> (r: Option<Vec<Keyed<Vec<Keyed<String>>>>>)
        ensures
            r is Some,
            r->0@.len() == 1,
            r->0@[0].key@ == TASKS_REF_MAP_KEY@,
            r->0@[0].value@.len() == self.files@.len(),
            forall|i: int|
                0 <= i < self.files@.len() ==> (#[trigger] r->0@[0].value@[i]).key@
                    == self.files@[i].key@ && r->0@[0].value@[i].value@
                    == self.files@[i].value.par_id@,
    {
        let mut refs: Vec<Keyed<String>> = Vec::new();
        let mut i: usize = 0;
        while i < self.files.len()
            invariant
                i <= self.files.len(),
                refs.len() == i,
                forall|k: int|
                    0 <= k < i ==> (#[trigger] refs@[k]).key@ == self.files@[k].key@ && refs@[k].value@
                        == self.files@[k].value.par_id@,
            decreases self.files.len() - i,
        {
            refs.push(
                Keyed { key: self.files[i].key.clone(), value: self.files[i].value.par_id.clone() },
            );
            i += 1;
        }
        let mut context: Vec<Keyed<Vec<Keyed<String>>>> = Vec::new();
        context.push(Keyed { key: String::from_str(TASKS_REF_MAP_KEY), value: refs });
        Some(context)
    }

    /// The one document of the processor, which holds every task.
    pub fn get_tim_documents(&self) -> (docs: Vec<TIMDocument>)
        ensures
            docs.len() == 1,
            docs@[0]@ == (DocumentView {
                processor: FileProcessorType::TaskPlugin,
                title: TASKS_TITLE@,
                path: TASKS_DOCPATH@,
                id: None,
            }),
    {
        let mut docs: Vec<TIMDocument> = Vec::new();
        docs.push(
            TIMDocument::new(
                FileProcessorType::TaskPlugin,
                String::from_str(TASKS_TITLE),
                String::from_str(TASKS_DOCPATH),
            ),
        );
        docs
    }

    /// What the template engine needs to render the bodies of the tasks, in
    /// the order of the tasks.
    pub fn render_inputs(&self) -> (inputs: Vec<TaskRenderInput>)
        ensures
            inputs.len() == self.files@.len(),
            forall|i: int|
                0 <= i < inputs.len() ==> {
                    let file = self.files@[i].value.file;
                    &&& (#[trigger] inputs@[i]).uid@ == self.files@[i].key@
                    &&& inputs@[i].template@ == contents_after_front_matter(
                        file.contents_text(),
                        file.delimiters().0,
                        file.delimiters().1,
                    )
                    &&& relativized(
                        file.path_text(),
                        self.project_root@,
                        opt_view(inputs@[i].local_file_path),
                    )
                },
    {
        let mut inputs: Vec<TaskRenderInput> = Vec::new();
        let mut i: usize = 0;
        while i < self.files.len()
            invariant
                i <= self.files.len(),
                inputs.len() == i,
                forall|k: int|
                    0 <= k < i ==> {
                        let file = self.files@[k].value.file;
                        &&& (#[trigger] inputs@[k]).uid@ == self.files@[k].key@
                        &&& inputs@[k].template@ == contents_after_front_matter(
                            file.contents_text(),
                            file.delimiters().0,
                            file.delimiters().1,
                        )
                        &&& relativized(
                            file.path_text(),
                            self.project_root@,
                            opt_view(inputs@[k].local_file_path),
                        )
                    },
            decreases self.files.len() - i,
        {
            let info = &self.files[i].value;
            inputs.push(
                TaskRenderInput {
                    uid: self.files[i].key.clone(),
                    template: info.file.contents_without_front_matter(),
                    local_file_path: info.file.path().relativize(self.project_root.as_str()),
                },
            );
            i += 1;
        }
        inputs
    }

    /// Puts the document of the tasks together from their rendered bodies:
    /// one plugin paragraph for each task, in ascending order of the tasks'
    /// identifiers, and the files that the bodies ask to upload.
    pub fn render_tim_document(&self, rendered: Vec<RenderedTask>) -> (r: Result<
        PreparedDocument,
        ProcessorError,
    >)
        ensures
            match r {
                Ok(doc) => rendered@.len() == self.files@.len() && doc.markdown@ == tasks_markup(
                    self.files@,
                    rendered@,
                    rendered@.len() as int,
                ) && doc.upload_files@ == tasks_uploads(rendered@, rendered@.len() as int),
                Err(ProcessorError::RenderMismatch) => rendered@.len() != self.files@.len(),
                Err(_) => false,
            },
    {
        if rendered.len() != self.files.len() {
            return Err(ProcessorError::RenderMismatch);
        }
        let ghost bodies = rendered@;
        let mut markdown = String::new();
        let mut upload_files = UploadFiles::new();
        let mut i: usize = 0;
        let n = rendered.len();
        for task in it: rendered
            invariant
                i == it.index(),
                it.seq() == bodies,
                n == bodies.len(),
                n == self.files@.len(),
                markdown@ == tasks_markup(self.files@, bodies, i as int),
                upload_files@ == tasks_uploads(bodies, i as int),
        {
            assert(task == bodies[i as int]);
            let ghost before = markdown@;
            write_paragraph(
                &mut markdown,
                self.files[i].key.as_str(),
                &self.files[i].value,
                task.body.as_str(),
            );
            upload_files.extend(task.upload_files);
            i += 1;
        }
        Ok(PreparedDocument { markdown, upload_files })
    }
}

/// What the rendering of a task knows: the path of the document that holds
/// the tasks, and the path of the task's file.
pub open spec fn task_transient_json(input: TaskRenderInput) -> JsonView {
    JsonView::Object(
        seq![
            MemberView { key: "path"@, value: JsonView::Text(TASKS_DOCPATH@) },
            MemberView {
                key: "local_file_path"@,
                value: match input.local_file_path {
                    Some(p) => JsonView::Text(p@),
                    None => JsonView::Null,
                },
            },
        ],
    )
}

/// The variables of the rendering of a task: the global data under `site`,
/// the front matter of the task file merged into that, and what the
/// rendering knows merged into both.
pub fn task_render_context(ctx: &FrozenContext, front_matter: &JsonValue, input: &TaskRenderInput) -> (out:
    JsonValue)
    ensures
        out.view() == merged(
            merged(handlebars_json(ctx.context()), front_matter.view()),
            task_transient_json(*input),
        ),
{
    let mut out = ctx.handlebars_context();
    out.merge(front_matter);
    let mut members: Vec<JsonMember> = Vec::new();
    members.push(
        JsonMember { key: String::from_str("path"), value: JsonValue::Text(String::from_str(TASKS_DOCPATH)) },
    );
    members.push(
        JsonMember {
            key: String::from_str("local_file_path"),
            value: match &input.local_file_path {
                Some(p) => JsonValue::Text(p.clone()),
                None => JsonValue::Null,
            },
        },
    );
    proof {
        lemma_members_view(members@, 2);
        assert(members_view(members@, 2) =~= task_transient_json(*input)->Object_0);
    }
    let transient = JsonValue::Object(members);
    out.merge(&transient);
    out
}

} // verus!
