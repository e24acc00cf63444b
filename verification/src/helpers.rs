//! What the template helpers write: the markup of areas, references, tasks
//! and files, and the addresses of documents.

use vstd::prelude::*;
use crate::global_ctx::{doc_map, FrozenContext};
use crate::keyed::{keyed_find, keyed_map};
use crate::links::{files_url, make_files_url};
use crate::numbers::{decimal_text, to_decimal};
use crate::path::{
    components, generate_hashed_filename, hashed_filename, is_absolute, join_components,
    join_path_components, path_is_absolute, relativized, resolve_onto, resolve_path_onto,
    string_views, RelativizeExtension,
};
use crate::task_processor::{TASKS_REF_MAP_KEY, TASKS_UID};
use crate::text::{chars_string, str_chars};
use crate::tim_client::{hashed_par_id, hashed_par_id_text};

verus! {

/// Why a helper cannot write what it is asked for.
#[derive(Debug)]
pub enum HelperError {
    /// No task is registered in the project.
    NoTasksRegistered,
    /// No task has this identifier.
    UnknownTask(String),
    /// The document that holds the tasks is not among the documents, or
    /// has no remote identifier.
    TaskDocumentMissing,
    /// No document has this identifier.
    UnknownDocument(String),
    /// The path of the current file is not known, so a relative path
    /// cannot be resolved.
    LocalFilePathNotSet,
    /// The current file has no directory to resolve a relative path against.
    NoParentDirectory,
}

/// A `HelperError` as contracts see it.
pub enum HelperErrorView {
    NoTasksRegistered,
    UnknownTask(Seq<char>),
    TaskDocumentMissing,
    UnknownDocument(Seq<char>),
    LocalFilePathNotSet,
    NoParentDirectory,
}

impl View for HelperError {
    type V = HelperErrorView;

    open spec fn view(&self) -> HelperErrorView {
        match self {
            HelperError::NoTasksRegistered => HelperErrorView::NoTasksRegistered,
            HelperError::UnknownTask(t) => HelperErrorView::UnknownTask(t@),
            HelperError::TaskDocumentMissing => HelperErrorView::TaskDocumentMissing,
            HelperError::UnknownDocument(d) => HelperErrorView::UnknownDocument(d@),
            HelperError::LocalFilePathNotSet => HelperErrorView::LocalFilePathNotSet,
            HelperError::NoParentDirectory => HelperErrorView::NoParentDirectory,
        }
    }
}

/// The name `nanoid` gives an area that has none: eight characters.
#[verifier::external_body]
fn random_name() -> (out: String)
    ensures
        out@.len() == 8,
{
    nanoid::format(nanoid::rngs::default, &nanoid::alphabet::SAFE, 8)
}

/// The name of an area: the given one, or `area-` and eight random characters.
pub fn area_name(given: Option<&str>) -> (out: String)
    ensures
        given matches Some(name) ==> out@ == name@,
        given is None ==> out@.len() == 13 && out@.subrange(0, 5) == "area-"@,
{
    match given {
        Some(name) => String::from_str(name),
        None => {
            let mut out = String::from_str("area-");
            let tail = random_name();
            proof {
                reveal_strlit("area-");
            }
            out.append(tail.as_str());
            assert(out@.subrange(0, 5) =~= "area-"@);
            out
        },
    }
}

/// The marker that opens an area: its name, whether it collapses, and its
/// classes. An area that does not collapse starts a paragraph at once.
pub open spec fn area_open_markup(name: Seq<char>, collapse: bool, class: Seq<char>) -> Seq<char> {
    "#- {area=\""@ + name + "\" "@ + (if collapse {
        "collapse=\"true\""@
    } else {
        Seq::empty()
    }) + " "@ + class + "}\n"@ + (if collapse {
        Seq::empty()
    } else {
        "\n#-\n"@
    })
}

/// The marker that closes an area.
pub open spec fn area_close_markup(name: Seq<char>) -> Seq<char> {
    "#- {area_end=\""@ + name + "\"}\n\n#-\n"@
}

/// An area: the opening marker, the contents, the alternative contents
/// behind a paragraph break if there are any, and the closing marker.
pub open spec fn area_markup(
    name: Seq<char>,
    collapse: bool,
    class: Seq<char>,
    body: Seq<char>,
    inverse: Option<Seq<char>>,
) -> Seq<char> {
    area_open_markup(name, collapse, class) + body + (match inverse {
        Some(other) => "#-\n"@ + other,
        None => Seq::empty(),
    }) + area_close_markup(name)
}

/// Writes an area around rendered contents.
pub fn area_block(name: &str, collapse: bool, class: &str, body: &str, inverse: Option<&str>) -> (out:
    String)
    ensures
        out@ == area_markup(
            name@,
            collapse,
            class@,
            body@,
            match inverse {
                Some(other) => Some(other@),
                None => None,
            },
        ),
{
    let mut out = String::from_str("#- {area=\"");
    out.append(name);
    out.append("\" ");
    if collapse {
        out.append("collapse=\"true\"");
    }
    out.append(" ");
    out.append(class);
    out.append("}\n");
    if !collapse {
        out.append("\n#-\n");
    }
    out.append(body);
    match inverse {
        Some(other) => {
            out.append("#-\n");
            out.append(other);
        },
        None => {},
    }
    out.append("#- {area_end=\"");
    out.append(name);
    out.append("\"}\n\n#-\n");
    assert(out@ =~= area_markup(
        name@,
        collapse,
        class@,
        body@,
        match inverse {
            Some(other) => Some(other@),
            None => None,
        },
    ));
    out
}

/// A settings block around `body`.
pub open spec fn docsettings_markup(body: Seq<char>) -> Seq<char> {
    "``` {settings=\"\"}\n\n"@ + body + "\n```\n\n"@
}

/// Writes a settings block around rendered contents.
pub fn docsettings_block(body: &str) -> (out: String)
    ensures
        out@ == docsettings_markup(body@),
{
    let mut out = String::from_str("``` {settings=\"\"}\n\n");
    out.append(body);
    out.append("\n```\n\n");
    out
}

/// A reference to the area `area_name` of the document `doc_id`.
pub open spec fn ref_area_markup(doc_id: u64, area_name: Seq<char>) -> Seq<char> {
    "#- {rd=\""@ + decimal_text(doc_id as nat) + "\" ra=\""@ + area_name + "\"}"@
}

/// Writes a reference to an area of a document.
pub fn ref_area_helper(doc_id: u64, area_name: &str) -> (out: String)
    ensures
        out@ == ref_area_markup(doc_id, area_name@),
{
    let mut out = String::from_str("#- {rd=\"");
    out.append(to_decimal(doc_id).as_str());
    out.append("\" ra=\"");
    out.append(area_name);
    out.append("\"}");
    out
}

/// A reference to the paragraph `task_par_id` of the document `doc_id`, in a
/// paragraph of its own with the identifier `par_id`.
pub open spec fn task_markup(doc_id: u64, task_par_id: Seq<char>, par_id: Seq<char>) -> Seq<char> {
    "#- { rd=\""@ + decimal_text(doc_id as nat) + "\" rp=\""@ + task_par_id + "\" id=\""@ + par_id
        + "\" }\n#-\n"@
}

/// The full identifier of a task: the identifier of the document that
/// holds the tasks, a `.`, and the identifier of the task.
pub open spec fn task_id_text(doc_id: u64, task_id: Seq<char>) -> Seq<char> {
    decimal_text(doc_id as nat) + "."@ + task_id
}

/// What the context knows of a task: the identifier of the document that
/// holds the tasks and the paragraph of the task; or why a reference to the
/// task cannot be written.
pub open spec fn task_reference(ctx: FrozenContext, task_id: Seq<char>) -> Result<
    (u64, Seq<char>),
    HelperErrorView,
> {
    let extras = keyed_map(ctx.context().processor_extras@);
    let docs = doc_map(ctx.context().doc@);
    if !extras.contains_key(TASKS_REF_MAP_KEY@) {
        Err(HelperErrorView::NoTasksRegistered)
    } else if !docs.contains_key(TASKS_UID@) || docs[TASKS_UID@].doc_id is None {
        Err(HelperErrorView::TaskDocumentMissing)
    } else {
        let refs = keyed_map(extras[TASKS_REF_MAP_KEY@]@);
        if refs.contains_key(task_id) {
            Ok((docs[TASKS_UID@].doc_id->0, refs[task_id]@))
        } else {
            Err(HelperErrorView::UnknownTask(task_id))
        }
    }
}

/// Looks a task up in the context.
pub fn find_task(ctx: &FrozenContext, task_id: &str) -> (r: Result<(u64, String), HelperError>)
    ensures
        match r {
            Ok((doc_id, par)) => task_reference(*ctx, task_id@) == Ok::<
                (u64, Seq<char>),
                HelperErrorView,
            >((doc_id, par@)),
            Err(e) => task_reference(*ctx, task_id@) == Err::<(u64, Seq<char>), HelperErrorView>(e@),
        },
{
    let refs = match ctx.extra(TASKS_REF_MAP_KEY) {
        Some(map) => map,
        None => {
            return Err(HelperError::NoTasksRegistered);
        },
    };
    let doc_id = match ctx.document(TASKS_UID) {
        Some(info) => match info.doc_id {
            Some(id) => id,
            None => {
                return Err(HelperError::TaskDocumentMissing);
            },
        },
        None => {
            return Err(HelperError::TaskDocumentMissing);
        },
    };
    match keyed_find(refs, task_id) {
        Some(i) => Ok((doc_id, refs[i].value.clone())),
        None => Err(HelperError::UnknownTask(String::from_str(task_id))),
    }
}

/// Writes a reference to a task: to the task's paragraph in the document
/// that holds the tasks, in a paragraph with the identifier that the
/// task's identifier gives.
pub fn task_helper(ctx: &FrozenContext, task_id: &str) -> (r: Result<String, HelperError>)
    ensures
        match r {
            Ok(out) => task_reference(*ctx, task_id@) is Ok && out@ == task_markup(
                task_reference(*ctx, task_id@)->Ok_0.0,
                task_reference(*ctx, task_id@)->Ok_0.1,
                hashed_par_id_text(task_id@),
            ),
            Err(e) => task_reference(*ctx, task_id@) == Err::<(u64, Seq<char>), HelperErrorView>(e@),
        },
{
    match find_task(ctx, task_id) {
        Err(e) => Err(e),
        Ok((doc_id, task_par_id)) => {
            let mut out = String::from_str("#- { rd=\"");
            out.append(to_decimal(doc_id).as_str());
            out.append("\" rp=\"");
            out.append(task_par_id.as_str());
            out.append("\" id=\"");
            out.append(hashed_par_id(Some(task_id)).as_str());
            out.append("\" }\n#-\n");
            Ok(out)
        },
    }
}

/// Writes the full identifier of a task.
pub fn task_id_helper(ctx: &FrozenContext, task_id: &str) -> (r: Result<String, HelperError>)
    ensures
        match r {
            Ok(out) => task_reference(*ctx, task_id@) is Ok && out@ == task_id_text(
                task_reference(*ctx, task_id@)->Ok_0.0,
                task_id@,
            ),
            Err(e) => task_reference(*ctx, task_id@) == Err::<(u64, Seq<char>), HelperErrorView>(e@),
        },
{
    match find_task(ctx, task_id) {
        Err(e) => Err(e),
        Ok((doc_id, _)) => {
            let mut out = to_decimal(doc_id);
            out.append(".");
            out.append(task_id);
            Ok(out)
        },
    }
}

/// The address of the document at `doc_path` below the root folder: below
/// the view `view` if one is named, else relative to the host.
pub open spec fn document_url(view: Seq<char>, base_path: Seq<char>, doc_path: Seq<char>) -> Seq<
    char,
> {
    if view.len() == 0 {
        base_path + "/"@ + doc_path
    } else {
        "/"@ + view + "/"@ + base_path + "/"@ + doc_path
    }
}

/// Writes the address of the document with the identifier `doc_uid`. The
/// view is `view` where none is named.
pub fn url_for_helper(ctx: &FrozenContext, doc_uid: &str, view: Option<&str>) -> (r: Result<
    String,
    HelperError,
>)
    ensures
        ({
            let docs = doc_map(ctx.context().doc@);
            let shown = match view {
                Some(v) => v@,
                None => "view"@,
            };
            match r {
                Ok(out) => docs.contains_key(doc_uid@) && out@ == document_url(
                    shown,
                    ctx.context().base_path@,
                    docs[doc_uid@].path,
                ),
                Err(e) => !docs.contains_key(doc_uid@) && e@ == HelperErrorView::UnknownDocument(
                    doc_uid@,
                ),
            }
        }),
{
    let view_name = match view {
        Some(v) => v,
        None => "view",
    };
    match ctx.document(doc_uid) {
        None => Err(HelperError::UnknownDocument(String::from_str(doc_uid))),
        Some(info) => {
            let base_path = ctx.get().base_path.as_str();
            if view_name.is_empty() {
                let mut out = String::from_str(base_path);
                out.append("/");
                out.append(info.path.as_str());
                Ok(out)
            } else {
                let mut out = String::from_str("/");
                out.append(view_name);
                out.append("/");
                out.append(base_path);
                out.append("/");
                out.append(info.path.as_str());
                Ok(out)
            }
        },
    }
}

/// Names a file by its content for the document at `tim_doc_path` and
/// writes the address under which the remote store will serve it. The
/// second result is the name under which the file is to be uploaded.
pub fn file_helper(ctx: &FrozenContext, tim_doc_path: &str, target_file_path: &str, contents: &[u8]) -> (r:
    (String, String))
    ensures
        r.1@ == hashed_filename(target_file_path@, contents@),
        r.0@ == files_url(ctx.context().base_path@, tim_doc_path@, r.1@),
{
    let name = generate_hashed_filename(target_file_path, contents);
    let url = make_files_url(ctx.get().base_path.as_str(), tim_doc_path, name.as_str());
    (url, name)
}

/// The file that a helper's path leads to. A path that starts with `/` is
/// taken from the project directory. Any other is taken from the directory
/// of the current file, which must be known. The result is normalized.
pub open spec fn full_file_path(
    local_file_path: Option<Seq<char>>,
    file_path: Seq<char>,
    local_project_dir: Seq<char>,
) -> Result<Seq<char>, HelperErrorView> {
    if is_absolute(file_path) {
        let rest = file_path.skip(1);
        if is_absolute(rest) {
            Ok(join_components(true, resolve_onto(Seq::empty(), components(rest))))
        } else {
            Ok(
                join_components(
                    is_absolute(local_project_dir),
                    resolve_onto(
                        resolve_onto(Seq::empty(), components(local_project_dir)),
                        components(rest),
                    ),
                ),
            )
        }
    } else {
        match local_file_path {
            None => Err(HelperErrorView::LocalFilePathNotSet),
            Some(local) => {
                let rooted = is_absolute(local) || is_absolute(local_project_dir);
                let file = if is_absolute(local) {
                    resolve_onto(Seq::empty(), components(local))
                } else {
                    resolve_onto(
                        resolve_onto(Seq::empty(), components(local_project_dir)),
                        components(local),
                    )
                };
                if file.len() == 0 {
                    Err(HelperErrorView::NoParentDirectory)
                } else {
                    Ok(join_components(rooted, resolve_onto(file.drop_last(), components(file_path))))
                }
            },
        }
    }
}

/// Resolves the path that a helper was given to the file it leads to.
pub fn resolve_full_file_path(
    local_file_path: Option<&str>,
    file_path: &str,
    local_project_dir: &str,
) -> (r: Result<String, HelperError>)
    ensures
        ({
            let local = match local_file_path {
                Some(l) => Some(l@),
                None => None,
            };
            match r {
                Ok(path) => full_file_path(local, file_path@, local_project_dir@) == Ok::<
                    Seq<char>,
                    HelperErrorView,
                >(path@),
                Err(e) => full_file_path(local, file_path@, local_project_dir@) == Err::<
                    Seq<char>,
                    HelperErrorView,
                >(e@),
            }
        }),
{
    let empty: Vec<String> = Vec::new();
    assert(string_views(empty@) =~= Seq::<Seq<char>>::empty());
    if path_is_absolute(file_path) {
        let chars = str_chars(file_path);
        let rest = chars_string(&chars, 1, chars.len());
        assert(rest@ == file_path@.skip(1));
        if path_is_absolute(rest.as_str()) {
            let comps = resolve_path_onto(empty, rest.as_str());
            Ok(join_path_components(true, &comps))
        } else {
            let base = resolve_path_onto(empty, local_project_dir);
            let comps = resolve_path_onto(base, rest.as_str());
            Ok(join_path_components(path_is_absolute(local_project_dir), &comps))
        }
    } else {
        match local_file_path {
            None => Err(HelperError::LocalFilePathNotSet),
            Some(local) => {
                let rooted = path_is_absolute(local) || path_is_absolute(local_project_dir);
                let mut file = if path_is_absolute(local) {
                    resolve_path_onto(empty, local)
                } else {
                    let base = resolve_path_onto(empty, local_project_dir);
                    resolve_path_onto(base, local)
                };
                if file.len() == 0 {
                    return Err(HelperError::NoParentDirectory);
                }
                let ghost whole = string_views(file@);
                let _ = file.pop();
                assert(string_views(file@) =~= whole.drop_last());
                let comps = resolve_path_onto(file, file_path);
                Ok(join_path_components(rooted, &comps))
            },
        }
    }
}

/// What an inclusion asks for: the file to read, and, where the file is a
/// template itself, the path under which it is rendered as the current file.
#[derive(Debug)]
pub struct Inclusion {
    /// The file to include.
    pub target_file_path: String,
    /// Whether the contents of the file are rendered as a template.
    pub template: bool,
    /// The path of the file relative to the project directory, for a file
    /// that is rendered and lies below that directory.
    pub local_file_path: Option<String>,
}

/// Plans the inclusion of a file: resolves its path, and decides whether its
/// contents are rendered, which they are only if that is asked for. A file
/// that is rendered becomes the current file of its rendering, so that the
/// paths in it are taken from its own directory.
pub fn include_helper(
    local_file_path: Option<&str>,
    file_path: &str,
    local_project_dir: &str,
    template: Option<bool>,
) -> (r: Result<Inclusion, HelperError>)
    ensures
        ({
            let local = match local_file_path {
                Some(l) => Some(l@),
                None => None,
            };
            match r {
                Ok(plan) => full_file_path(local, file_path@, local_project_dir@) == Ok::<
                    Seq<char>,
                    HelperErrorView,
                >(plan.target_file_path@) && plan.template == (template == Some(true)) && (!plan.template
                    ==> plan.local_file_path is None) && (plan.template ==> relativized(
                    plan.target_file_path@,
                    local_project_dir@,
                    match plan.local_file_path {
                        Some(p) => Some(p@),
                        None => None,
                    },
                )),
                Err(e) => full_file_path(local, file_path@, local_project_dir@) == Err::<
                    Seq<char>,
                    HelperErrorView,
                >(e@),
            }
        }),
{
    let do_template = match template {
        Some(t) => t,
        None => false,
    };
    match resolve_full_file_path(local_file_path, file_path, local_project_dir) {
        Err(e) => Err(e),
        Ok(target_file_path) => {
            let local = if do_template {
                target_file_path.relativize(local_project_dir)
            } else {
                None
            };
            Ok(Inclusion { target_file_path, template: do_template, local_file_path: local })
        },
    }
}

} // verus!
