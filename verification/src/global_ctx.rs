//! The global context: what every document of a project may refer to when
//! it is rendered. It is built while the remote tree is created and frozen
//! before any content is rendered.

use vstd::prelude::*;
use crate::json::{
    members_view, set_member, with_member, JsonMember, JsonValue, JsonView, MemberView,
};
use crate::keyed::{keyed_find, keyed_map, lemma_keyed_push, Keyed};
use crate::numbers::{decimal_text, to_decimal};
use crate::tim_document::{DocumentView, TIMDocument};

verus! {

/// The name of the file that holds the static data of a project.
pub const GLOBAL_DATA_CONFIG_FILE: &'static str = "_config.yml";

/// What the file of the global data of a new project holds.
pub const DEFAULT_GLOBAL_DATA: &'static str =
    "#\n# This config file is meant for settings that affect your whole TIM page. \n# You can access these values throughout all documents by using the `site` variable.\n# For example, you can use `{{ site.title }}` to access the title of your page.\n\n# The title of your page\ntitle: My TIM page\n";

/// What other documents may know of a document.
#[derive(Debug)]
pub struct DocInfo {
    /// The remote identifier of the document.
    pub doc_id: Option<u64>,
    /// The remote path of the document, relative to the root folder.
    pub path: String,
    /// The title of the document.
    pub title: String,
}

/// A `DocInfo` as contracts see it.
pub struct DocInfoView {
    pub doc_id: Option<u64>,
    pub path: Seq<char>,
    pub title: Seq<char>,
}

impl View for DocInfo {
    type V = DocInfoView;

    open spec fn view(&self) -> DocInfoView {
        DocInfoView { doc_id: self.doc_id, path: self.path@, title: self.title@ }
    }
}

/// What the context tells of a document.
pub open spec fn info_of(doc: DocumentView) -> DocInfoView {
    DocInfoView { doc_id: doc.id, path: doc.path, title: doc.title }
}

/// A document with the identifier by which others refer to it, if it states one.
#[derive(Debug)]
pub struct IdentifiedDocument {
    pub uid: Option<String>,
    pub document: TIMDocument,
}

/// What a processor publishes: maps of texts under keys.
#[derive(Debug)]
pub struct ProcessorContext {
    pub entries: Vec<Keyed<Vec<Keyed<String>>>>,
}

/// What a processor publishes under one key, as contracts see it.
pub struct PublishedView {
    pub key: Seq<char>,
    pub entries: Seq<(Seq<char>, Seq<char>)>,
}

/// A map of texts as contracts see it.
pub open spec fn text_entries(entries: Seq<Keyed<String>>) -> Seq<(Seq<char>, Seq<char>)> {
    entries.map_values(|e: Keyed<String>| (e.key@, e.value@))
}

/// What processors publish, as contracts see it.
pub open spec fn published_view(entries: Seq<Keyed<Vec<Keyed<String>>>>) -> Seq<PublishedView> {
    entries.map_values(
        |e: Keyed<Vec<Keyed<String>>>| PublishedView { key: e.key@, entries: text_entries(e.value@) },
    )
}

/// The global context while it is built.
#[derive(Debug)]
pub struct GlobalContext {
    /// The static data of the project, a JSON object.
    pub site: JsonValue,
    /// The documents that state an identifier, by that identifier.
    pub doc: Vec<Keyed<DocInfo>>,
    /// All documents.
    pub docs: Vec<DocInfo>,
    /// The host of the target.
    pub host: String,
    /// The root folder of the target.
    pub base_path: String,
    /// What the processors publish, in the order in which they published it.
    pub processor_extras: Vec<Keyed<Vec<Keyed<String>>>>,
}

/// The global context once it is frozen: it can be read and no longer changed.
#[derive(Debug)]
pub struct FrozenContext {
    context: GlobalContext,
}

/// The documents among the first `n` that state an identifier, by that identifier.
pub open spec fn identified(docs: Seq<IdentifiedDocument>, n: int) -> Map<Seq<char>, DocInfoView>
    decreases n,
{
    if n <= 0 {
        Map::empty()
    } else {
        match docs[n - 1].uid {
            Some(uid) => identified(docs, n - 1).insert(uid@, info_of(docs[n - 1].document@)),
            None => identified(docs, n - 1),
        }
    }
}

/// The views of the documents that a list of keyed infos holds.
pub open spec fn doc_map(entries: Seq<Keyed<DocInfo>>) -> Map<Seq<char>, DocInfoView> {
    keyed_map(entries).map_values(|d: DocInfo| d@)
}

impl GlobalContext {
    /// The context of a project with the given static data and nothing else.
    pub fn new(site: JsonValue) -> (ctx: GlobalContext)
        ensures
            ctx.site == site,
            ctx.doc@.len() == 0,
            ctx.docs@.len() == 0,
            ctx.host@.len() == 0,
            ctx.base_path@.len() == 0,
            ctx.processor_extras@.len() == 0,
    {
        GlobalContext {
            site,
            doc: Vec::new(),
            docs: Vec::new(),
            host: String::new(),
            base_path: String::new(),
            processor_extras: Vec::new(),
        }
    }

    /// Enters the documents: all of them in their order, and those that
    /// state an identifier also under that identifier.
    pub fn insert_documents(&mut self, documents: &Vec<IdentifiedDocument>)
        ensures
            final(self).site == old(self).site,
            final(self).host == old(self).host,
            final(self).base_path == old(self).base_path,
            final(self).processor_extras == old(self).processor_extras,
            final(self).docs@.len() == documents@.len(),
            forall|i: int|
                0 <= i < documents@.len() ==> (#[trigger] final(self).docs@[i])@ == info_of(
                    documents@[i].document@,
                ),
            doc_map(final(self).doc@) == identified(documents@, documents@.len() as int),
    {
        let mut doc: Vec<Keyed<DocInfo>> = Vec::new();
        let mut docs: Vec<DocInfo> = Vec::new();
        let mut i: usize = 0;
        assert(doc_map(doc@) =~= identified(documents@, 0));
        while i < documents.len()
            invariant
                i <= documents.len(),
                docs.len() == i,
                forall|k: int|
                    0 <= k < i ==> (#[trigger] docs@[k])@ == info_of(documents@[k].document@),
                doc_map(doc@) == identified(documents@, i as int),
            decreases documents.len() - i,
        {
            let d = &documents[i].document;
            docs.push(DocInfo { doc_id: d.id, path: d.path.clone(), title: d.title.clone() });
            match &documents[i].uid {
                Some(uid) => {
                    let entry = Keyed {
                        key: uid.clone(),
                        value: DocInfo { doc_id: d.id, path: d.path.clone(), title: d.title.clone() },
                    };
                    proof {
                        lemma_keyed_push(doc@, entry);
                        assert(doc_map(doc@.push(entry)) =~= doc_map(doc@).insert(
                            entry.key@,
                            entry.value@,
                        ));
                    }
                    doc.push(entry);
                },
                None => {},
            }
            i += 1;
        }
        self.doc = doc;
        self.docs = docs;
    }

    /// Enters the host and the root folder of the target.
    pub fn insert_target(&mut self, host: &str, base_path: &str)
        ensures
            final(self).host@ == host@,
            final(self).base_path@ == base_path@,
            final(self).site == old(self).site,
            final(self).doc == old(self).doc,
            final(self).docs == old(self).docs,
            final(self).processor_extras == old(self).processor_extras,
    {
        self.host = String::from_str(host);
        self.base_path = String::from_str(base_path);
    }

    /// Enters what a processor publishes, after what was published before.
    pub fn extend(&mut self, data: ProcessorContext)
        ensures
            final(self).processor_extras@ == old(self).processor_extras@ + data.entries@,
            published_view(final(self).processor_extras@) == published_view(
                old(self).processor_extras@,
            ) + published_view(data.entries@),
            final(self).site == old(self).site,
            final(self).doc == old(self).doc,
            final(self).docs == old(self).docs,
            final(self).host == old(self).host,
            final(self).base_path == old(self).base_path,
    {
        let mut data = data;
        assert(published_view(self.processor_extras@ + data.entries@) =~= published_view(
            self.processor_extras@,
        ) + published_view(data.entries@));
        self.processor_extras.append(&mut data.entries);
    }

    /// Freezes the context. The builder is used up: nothing can be entered
    /// afterwards, and a context cannot be frozen twice.
    pub fn freeze(self) -> (frozen: FrozenContext)
        ensures
            frozen.context() == self,
    {
        FrozenContext { context: self }
    }
}

impl FrozenContext {
    /// What the context holds.
    pub closed spec fn context(&self) -> GlobalContext {
        self.context
    }

    /// Reads the context.
    pub fn get(&self) -> (ctx: &GlobalContext)
        ensures
            *ctx == self.context(),
    {
        &self.context
    }

    /// What the context tells of the document with the identifier `uid`.
    pub fn document(&self, uid: &str) -> (r: Option<&DocInfo>)
        ensures
            match r {
                Some(info) => doc_map(self.context().doc@).contains_key(uid@) && info@ == doc_map(
                    self.context().doc@,
                )[uid@],
                None => !doc_map(self.context().doc@).contains_key(uid@),
            },
    {
        match keyed_find(&self.context.doc, uid) {
            Some(i) => Some(&self.context.doc[i].value),
            None => None,
        }
    }

    /// The map that the processors published under `key`, if any did.
    pub fn extra(&self, key: &str) -> (r: Option<&Vec<Keyed<String>>>)
        ensures
            match r {
                Some(map) => keyed_map(self.context().processor_extras@).contains_key(key@) && *map
                    == keyed_map(self.context().processor_extras@)[key@],
                None => !keyed_map(self.context().processor_extras@).contains_key(key@),
            },
    {
        match keyed_find(&self.context.processor_extras, key) {
            Some(i) => Some(&self.context.processor_extras[i].value),
            None => None,
        }
    }
}

/// What the templates see of a document: its identifier, `null` while it
/// has none, its path and its title.
pub open spec fn info_json(info: DocInfoView) -> JsonView {
    JsonView::Object(
        seq![
            MemberView {
                key: "doc_id"@,
                value: match info.doc_id {
                    Some(id) => JsonView::Number(decimal_text(id as nat)),
                    None => JsonView::Null,
                },
            },
            MemberView { key: "path"@, value: JsonView::Text(info.path) },
            MemberView { key: "title"@, value: JsonView::Text(info.title) },
        ],
    )
}

/// What the templates see of the first `n` documents, in their order.
pub open spec fn docs_json(docs: Seq<DocInfo>, n: int) -> Seq<JsonView>
    decreases n,
{
    if n <= 0 {
        Seq::empty()
    } else {
        docs_json(docs, n - 1).push(info_json(docs[n - 1]@))
    }
}

/// What the templates see of the first `n` identified documents, by identifier.
pub open spec fn doc_members(entries: Seq<Keyed<DocInfo>>, n: int) -> Seq<MemberView>
    decreases n,
{
    if n <= 0 {
        Seq::empty()
    } else {
        with_member(doc_members(entries, n - 1), entries[n - 1].key@, info_json(entries[n - 1].value@))
    }
}

/// The first `n` entries of a map of texts as the members of an object.
pub open spec fn text_members(entries: Seq<Keyed<String>>, n: int) -> Seq<MemberView>
    decreases n,
{
    if n <= 0 {
        Seq::empty()
    } else {
        with_member(
            text_members(entries, n - 1),
            entries[n - 1].key@,
            JsonView::Text(entries[n - 1].value@),
        )
    }
}

/// The members `base` with what the processors published in the first `n`
/// entries, each map as an object under its key.
pub open spec fn extras_members(
    base: Seq<MemberView>,
    extras: Seq<Keyed<Vec<Keyed<String>>>>,
    n: int,
) -> Seq<MemberView>
    decreases n,
{
    if n <= 0 {
        base
    } else {
        with_member(
            extras_members(base, extras, n - 1),
            extras[n - 1].key@,
            JsonView::Object(text_members(extras[n - 1].value@, extras[n - 1].value@.len() as int)),
        )
    }
}

/// The members of the static data of a project: none if the data is no object.
pub open spec fn site_members(site: JsonView) -> Seq<MemberView> {
    match site {
        JsonView::Object(members) => members,
        _ => Seq::empty(),
    }
}

/// The global data as the templates see it: the static data of the
/// project, then, each over what had its name before, the identified
/// documents under `doc`, all documents under `docs`, the host under
/// `host`, the root folder under `base_path`, and what the processors published.
pub open spec fn global_data(ctx: GlobalContext) -> Seq<MemberView> {
    extras_members(
        with_member(
            with_member(
                with_member(
                    with_member(
                        site_members(ctx.site.view()),
                        "doc"@,
                        JsonView::Object(doc_members(ctx.doc@, ctx.doc@.len() as int)),
                    ),
                    "docs"@,
                    JsonView::Array(docs_json(ctx.docs@, ctx.docs@.len() as int)),
                ),
                "host"@,
                JsonView::Text(ctx.host@),
            ),
            "base_path"@,
            JsonView::Text(ctx.base_path@),
        ),
        ctx.processor_extras@,
        ctx.processor_extras@.len() as int,
    )
}

/// The context of a rendering before anything of the document is in it:
/// the global data under `site`.
pub open spec fn handlebars_json(ctx: GlobalContext) -> JsonView {
    JsonView::Object(seq![MemberView { key: "site"@, value: JsonView::Object(global_data(ctx)) }])
}

/// Writes what the templates see of a document.
fn doc_info_value(info: &DocInfo) -> (out: JsonValue)
    ensures
        out.view() == info_json(info@),
{
    let mut members: Vec<JsonMember> = Vec::new();
    members.push(
        JsonMember {
            key: String::from_str("doc_id"),
            value: match info.doc_id {
                Some(id) => JsonValue::Number(to_decimal(id)),
                None => JsonValue::Null,
            },
        },
    );
    members.push(JsonMember { key: String::from_str("path"), value: JsonValue::Text(info.path.clone()) });
    members.push(
        JsonMember { key: String::from_str("title"), value: JsonValue::Text(info.title.clone()) },
    );
    proof {
        crate::json::lemma_members_view(members@, 3);
        assert(members_view(members@, 3) =~= info_json(info@)->Object_0);
    }
    JsonValue::Object(members)
}

/// Writes a map of texts as an object.
fn text_map_value(entries: &Vec<Keyed<String>>) -> (out: JsonValue)
    ensures
        out.view() == JsonView::Object(text_members(entries@, entries@.len() as int)),
{
    let mut members: Vec<JsonMember> = Vec::new();
    let mut i: usize = 0;
    while i < entries.len()
        invariant
            i <= entries.len(),
            members_view(members@, members@.len() as int) == text_members(entries@, i as int),
        decreases entries.len() - i,
    {
        set_member(&mut members, entries[i].key.as_str(), JsonValue::Text(entries[i].value.clone()));
        i += 1;
    }
    JsonValue::Object(members)
}

impl FrozenContext {
    /// The context of a rendering before anything of the document is in it.
    pub fn handlebars_context(&self) -> (out: JsonValue)
        ensures
            out.view() == handlebars_json(self.context()),
    {
        let ctx = &self.context;
        let mut data: Vec<JsonMember> = match ctx.site.duplicate() {
            JsonValue::Object(members) => members,
            _ => Vec::new(),
        };
        assert(members_view(data@, data@.len() as int) == site_members(ctx.site.view()));
        let mut doc: Vec<JsonMember> = Vec::new();
        let mut i: usize = 0;
        while i < ctx.doc.len()
            invariant
                i <= ctx.doc.len(),
                members_view(doc@, doc@.len() as int) == doc_members(ctx.doc@, i as int),
            decreases ctx.doc.len() - i,
        {
            set_member(&mut doc, ctx.doc[i].key.as_str(), doc_info_value(&ctx.doc[i].value));
            i += 1;
        }
        let mut docs: Vec<JsonValue> = Vec::new();
        let mut k: usize = 0;
        while k < ctx.docs.len()
            invariant
                k <= ctx.docs.len(),
                docs.len() == k,
                crate::json::values_view(docs@, k as int) == docs_json(ctx.docs@, k as int),
            decreases ctx.docs.len() - k,
        {
            let ghost before = docs@;
            docs.push(doc_info_value(&ctx.docs[k]));
            proof {
                crate::json::lemma_values_view(before, k as int);
                crate::json::lemma_values_view(docs@, k as int);
                assert(crate::json::values_view(docs@, k as int) =~= crate::json::values_view(
                    before,
                    k as int,
                ));
            }
            k += 1;
        }
        set_member(&mut data, "doc", JsonValue::Object(doc));
        set_member(&mut data, "docs", JsonValue::Array(docs));
        set_member(&mut data, "host", JsonValue::Text(ctx.host.clone()));
        set_member(&mut data, "base_path", JsonValue::Text(ctx.base_path.clone()));
        let ghost base = members_view(data@, data@.len() as int);
        let mut e: usize = 0;
        while e < ctx.processor_extras.len()
            invariant
                e <= ctx.processor_extras.len(),
                members_view(data@, data@.len() as int) == extras_members(
                    base,
                    ctx.processor_extras@,
                    e as int,
                ),
            decreases ctx.processor_extras.len() - e,
        {
            set_member(
                &mut data,
                ctx.processor_extras[e].key.as_str(),
                text_map_value(&ctx.processor_extras[e].value),
            );
            e += 1;
        }
        let mut top: Vec<JsonMember> = Vec::new();
        top.push(JsonMember { key: String::from_str("site"), value: JsonValue::Object(data) });
        proof {
            crate::json::lemma_members_view(top@, 1);
            assert(members_view(top@, 1) =~= handlebars_json(self.context())->Object_0);
        }
        JsonValue::Object(top)
    }
}

} // verus!
