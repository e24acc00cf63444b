//! The remote store as the synchronization sees it: items, the errors of
//! the transport, the decisions of creating or updating an item, and
//! paragraph identifiers.

use vstd::prelude::*;
use rand::Rng;
use crate::fingerprint::{sha1_bytes, sha1_digest};
use crate::text::{chars_string, str_chars};
use crate::tree::{ItemType, SyncError, SyncErrorView};

verus! {

/// What the remote store tells of an item.
#[derive(Debug)]
pub struct ItemInfo {
    /// The identifier of the item.
    pub id: u64,
    /// The kind of the item.
    pub item_type: ItemType,
    /// The title of the item.
    pub title: String,
    /// The path of the folder that holds the item.
    pub location: String,
    /// The name of the item in addresses.
    pub short_name: String,
    /// The language of the item, if it is a document and has one set.
    pub lang_id: Option<String>,
}

/// The errors of the client of the remote store.
#[derive(Debug)]
pub enum TimClientErrors {
    /// No token against request forgery was fetched yet.
    NoXsrfToken,
    /// No host was given.
    NoHost,
    /// The login was refused: the status of the answer.
    InvalidLogin(String),
    /// No item at the path: the path and the status of the answer.
    ItemNotFound(String, String),
    /// The item could not be created: the path and the status of the answer.
    CouldNotCreateItem(String, String),
    /// The item at the path is of another kind: the path, the kind asked
    /// for and the kind found.
    InvalidItemType(String, String, String),
    /// A request for the item failed: the path and the status of the answer.
    ItemError(String, String),
}

/// A `TimClientErrors` as contracts see it.
pub enum TimClientErrorsView {
    NoXsrfToken,
    NoHost,
    InvalidLogin(Seq<char>),
    ItemNotFound(Seq<char>, Seq<char>),
    CouldNotCreateItem(Seq<char>, Seq<char>),
    InvalidItemType(Seq<char>, Seq<char>, Seq<char>),
    ItemError(Seq<char>, Seq<char>),
}

impl View for TimClientErrors {
    type V = TimClientErrorsView;

    open spec fn view(&self) -> TimClientErrorsView {
        match self {
            TimClientErrors::NoXsrfToken => TimClientErrorsView::NoXsrfToken,
            TimClientErrors::NoHost => TimClientErrorsView::NoHost,
            TimClientErrors::InvalidLogin(s) => TimClientErrorsView::InvalidLogin(s@),
            TimClientErrors::ItemNotFound(p, s) => TimClientErrorsView::ItemNotFound(p@, s@),
            TimClientErrors::CouldNotCreateItem(p, s) => TimClientErrorsView::CouldNotCreateItem(
                p@,
                s@,
            ),
            TimClientErrors::InvalidItemType(p, a, b) => TimClientErrorsView::InvalidItemType(
                p@,
                a@,
                b@,
            ),
            TimClientErrors::ItemError(p, s) => TimClientErrorsView::ItemError(p@, s@),
        }
    }
}

/// What a `TimClientErrors` says.
pub open spec fn client_error_message(e: TimClientErrorsView) -> Seq<char> {
    match e {
        TimClientErrorsView::NoXsrfToken => "No XSRF token found. Call refresh_xsrf_token() first."@,
        TimClientErrorsView::NoHost => "No TIM host given"@,
        TimClientErrorsView::InvalidLogin(s) =>
            "Invalid username or password for basic login. Server responded with: "@ + s,
        TimClientErrorsView::ItemNotFound(p, s) => "Item not found from "@ + p + ": "@ + s,
        TimClientErrorsView::CouldNotCreateItem(p, s) => "Could not create item "@ + p + ": "@ + s,
        TimClientErrorsView::InvalidItemType(p, a, b) => "Item "@ + p + " is not a "@ + a
            + ", but a "@ + b,
        TimClientErrorsView::ItemError(p, s) => "Failed to process "@ + p + ": "@ + s,
    }
}

impl TimClientErrors {
    /// The error in words.
    pub fn message(&self) -> (out: String)
        ensures
            out@ == client_error_message(self@),
    {
        match self {
            TimClientErrors::NoXsrfToken => String::from_str(
                "No XSRF token found. Call refresh_xsrf_token() first.",
            ),
            TimClientErrors::NoHost => String::from_str("No TIM host given"),
            TimClientErrors::InvalidLogin(s) => {
                let mut out = String::from_str(
                    "Invalid username or password for basic login. Server responded with: ",
                );
                out.append(s.as_str());
                out
            },
            TimClientErrors::ItemNotFound(p, s) => {
                let mut out = String::from_str("Item not found from ");
                out.append(p.as_str());
                out.append(": ");
                out.append(s.as_str());
                out
            },
            TimClientErrors::CouldNotCreateItem(p, s) => {
                let mut out = String::from_str("Could not create item ");
                out.append(p.as_str());
                out.append(": ");
                out.append(s.as_str());
                out
            },
            TimClientErrors::InvalidItemType(p, a, b) => {
                let mut out = String::from_str("Item ");
                out.append(p.as_str());
                out.append(" is not a ");
                out.append(a.as_str());
                out.append(", but a ");
                out.append(b.as_str());
                out
            },
            TimClientErrors::ItemError(p, s) => {
                let mut out = String::from_str("Failed to process ");
                out.append(p.as_str());
                out.append(": ");
                out.append(s.as_str());
                out
            },
        }
    }
}

/// The name of a kind of item, as the remote store writes it.
pub open spec fn item_type_name(item_type: ItemType) -> Seq<char> {
    match item_type {
        ItemType::Folder => "folder"@,
        ItemType::Document => "document"@,
    }
}

/// The name of a kind of item.
pub fn item_type_text(item_type: ItemType) -> (out: String)
    ensures
        out@ == item_type_name(item_type),
{
    match item_type {
        ItemType::Folder => String::from_str("folder"),
        ItemType::Document => String::from_str("document"),
    }
}

/// What to do after the look-up of an item that is to exist with a title.
#[derive(Debug)]
pub enum UpsertAction {
    /// The item exists and is of the right kind: set its title. Its
    /// identifier is the one found.
    UpdateTitle(ItemInfo),
    /// The item does not exist: create it, then look it up for its identifier.
    Create,
}

/// What the look-up of an item found.
#[derive(Debug)]
pub enum ItemLookup {
    /// The item exists.
    Found(ItemInfo),
    /// The remote store has no item at the path.
    NotFound,
}

/// Decides how an item comes to exist with a title. An item that exists
/// with the kind asked for is kept and retitled. One that does not exist is
/// created. One that exists with another kind is an error.
pub fn create_or_update_item(item_type: ItemType, path: &str, found: ItemLookup) -> (r: Result<
    UpsertAction,
    TimClientErrors,
>)
    ensures
        match found {
            ItemLookup::NotFound => r matches Ok(UpsertAction::Create),
            ItemLookup::Found(info) => if info.item_type == item_type {
                r matches Ok(UpsertAction::UpdateTitle(kept)) && kept == info
            } else {
                r is Err && r->Err_0@ == TimClientErrorsView::InvalidItemType(
                    path@,
                    item_type_name(item_type),
                    item_type_name(info.item_type),
                )
            },
        },
{
    match found {
        ItemLookup::NotFound => Ok(UpsertAction::Create),
        ItemLookup::Found(info) => {
            if info.item_type == item_type {
                Ok(UpsertAction::UpdateTitle(info))
            } else {
                Err(
                    TimClientErrors::InvalidItemType(
                        String::from_str(path),
                        item_type_text(item_type),
                        item_type_text(info.item_type),
                    ),
                )
            }
        },
    }
}

/// Decides what is to happen before the content of a document goes up to
/// `doc_path`: where nothing exists there, the document is to be created
/// first; where a document exists, nothing is; an item of another kind is
/// an error. The answer says whether the document is to be created.
pub fn process_markdown(doc_path: &str, found: &ItemLookup) -> (r: Result<bool, SyncError>)
    ensures
        match *found {
            ItemLookup::NotFound => r == Ok::<bool, SyncError>(true),
            ItemLookup::Found(info) => match info.item_type {
                ItemType::Document => r == Ok::<bool, SyncError>(false),
                ItemType::Folder => r is Err && r->Err_0@ == SyncErrorView::ItemIsNotADocument(
                    doc_path@,
                    item_type_name(ItemType::Folder),
                ),
            },
        },
{
    match found {
        ItemLookup::NotFound => Ok(true),
        ItemLookup::Found(info) => match info.item_type {
            ItemType::Document => Ok(false),
            ItemType::Folder => Err(
                SyncError::ItemIsNotADocument(
                    String::from_str(doc_path),
                    item_type_text(ItemType::Folder),
                ),
            ),
        },
    }
}

/// Checks that content can be uploaded to an item: it must be a document.
pub fn upload_markdown(item_path: &str, item: &ItemInfo) -> (r: Result<(), TimClientErrors>)
    ensures
        match item.item_type {
            ItemType::Document => r is Ok,
            ItemType::Folder => r is Err && r->Err_0@ == TimClientErrorsView::InvalidItemType(
                item_path@,
                item_type_name(ItemType::Document),
                item_type_name(ItemType::Folder),
            ),
        },
{
    match item.item_type {
        ItemType::Document => Ok(()),
        ItemType::Folder => Err(
            TimClientErrors::InvalidItemType(
                String::from_str(item_path),
                item_type_text(ItemType::Document),
                item_type_text(ItemType::Folder),
            ),
        ),
    }
}

/// Collects what a client needs before it is built.
#[derive(Debug)]
pub struct TimClientBuilder {
    pub tim_host: Option<String>,
}

impl TimClientBuilder {
    /// A builder without a host.
    pub fn new() -> (b: TimClientBuilder)
        ensures
            b.tim_host is None,
    {
        TimClientBuilder { tim_host: None }
    }

    /// Sets the host, such as `https://tim.jyu.fi`.
    pub fn tim_host(self, tim_host: &str) -> (b: TimClientBuilder)
        ensures
            b.tim_host is Some,
            b.tim_host->0@ == tim_host@,
    {
        let mut b = self;
        b.tim_host = Some(String::from_str(tim_host));
        b
    }

    /// The host to build the client for. A builder without a host cannot build one.
    pub fn build(self) -> (r: Result<String, TimClientErrors>)
        ensures
            match self.tim_host {
                Some(host) => r is Ok && r->Ok_0 == host,
                None => r is Err && r->Err_0@ == TimClientErrorsView::NoHost,
            },
    {
        match self.tim_host {
            Some(host) => Ok(host),
            None => Err(TimClientErrors::NoHost),
        }
    }
}

/// The characters of a paragraph identifier.
pub open spec fn charset() -> Seq<char> {
    "0123456789abcdefghijklmnopqrstuvwxyzABCDEFGHIJKLMNOPQRSTUVWXYZ"@
}

/// How many characters there are to choose from.
pub const GEN_ASCII_STR_CHARSET_LEN: usize = 62;

/// The sum of the first `n` values, those at even positions doubled.
pub open spec fn weighted_sum(values: Seq<usize>, n: int) -> int
    decreases n,
{
    if n <= 0 {
        0
    } else {
        weighted_sum(values, n - 1) + (if (n - 1) % 2 == 0 {
            2 * values[n - 1]
        } else {
            values[n - 1] as int
        })
    }
}

/// The check character of an identifier with the given character values:
/// the one whose value brings the weighted sum to a multiple of the
/// number of characters.
pub open spec fn check_char(values: Seq<usize>) -> char {
    let check = weighted_sum(values, values.len() as int) % (GEN_ASCII_STR_CHARSET_LEN as int);
    if check == 0 {
        charset()[0]
    } else {
        charset()[GEN_ASCII_STR_CHARSET_LEN - check]
    }
}

/// The identifier with the given character values: the characters of the
/// values and the check character.
pub open spec fn par_id_text(values: Seq<usize>) -> Seq<char> {
    Seq::new(values.len(), |i: int| charset()[values[i] as int]).push(check_char(values))
}

/// `rand::Rng::gen_range` on the thread's generator: some number below `bound`.
#[verifier::external_body]
fn random_below(bound: usize) -> (r: usize)
    requires
        bound > 0,
    ensures
        r < bound,
{
    rand::thread_rng().gen_range(0..bound)
}

/// The paragraph identifier with the given character values.
pub fn par_id_of(values: &Vec<usize>) -> (out: String)
    requires
        forall|i: int| 0 <= i < values.len() ==> (#[trigger] values@[i]) < GEN_ASCII_STR_CHARSET_LEN,
    ensures
        out@ == par_id_text(values@),
{
    let chars = str_chars("0123456789abcdefghijklmnopqrstuvwxyzABCDEFGHIJKLMNOPQRSTUVWXYZ");
    proof {
        reveal_strlit("0123456789abcdefghijklmnopqrstuvwxyzABCDEFGHIJKLMNOPQRSTUVWXYZ");
    }
    assert(chars.len() == 62);
    let mut id: Vec<char> = Vec::new();
    let mut acc: u128 = 0;
    let mut i: usize = 0;
    while i < values.len()
        invariant
            i <= values.len(),
            chars@ == charset(),
            chars.len() == 62,
            forall|k: int| 0 <= k < values.len() ==> (#[trigger] values@[k]) < 62,
            id.len() == i,
            forall|k: int| 0 <= k < i ==> id@[k] == charset()[values@[k] as int],
            acc == weighted_sum(values@, i as int),
            acc <= 124 * i,
        decreases values.len() - i,
    {
        let value = values[i];
        id.push(chars[value]);
        acc = acc + (if i % 2 == 0 {
            value as u128 * 2
        } else {
            value as u128
        });
        i += 1;
    }
    let check = (acc % 62) as usize;
    let last = if check == 0 {
        chars[0]
    } else {
        chars[GEN_ASCII_STR_CHARSET_LEN - check]
    };
    id.push(last);
    let out = chars_string(&id, 0, id.len());
    assert(out@ =~= par_id_text(values@));
    out
}

/// A random paragraph identifier: eleven random characters and their check character.
pub fn random_par_id() -> (out: String)
    ensures
        exists|values: Seq<usize>|
            values.len() == 11 && (forall|i: int| 0 <= i < 11 ==> (#[trigger] values[i]) < 62)
                && out@ == #[trigger] par_id_text(values),
{
    let mut values: Vec<usize> = Vec::new();
    let mut i: usize = 0;
    while i < 11
        invariant
            i <= 11,
            values.len() == i,
            forall|k: int| 0 <= k < i ==> (#[trigger] values@[k]) < 62,
        decreases 11 - i,
    {
        values.push(random_below(GEN_ASCII_STR_CHARSET_LEN));
        i += 1;
    }
    let out = par_id_of(&values);
    assert(out@ == par_id_text(values@));
    out
}

/// The character values that a digest gives an identifier: those of its
/// first eleven bytes, each taken modulo the number of characters.
pub open spec fn hashed_values(digest: Seq<u8>) -> Seq<usize> {
    Seq::new(11, |i: int| (digest[i] % 62) as usize)
}

/// The paragraph identifier of a seed: the one whose character values the
/// SHA-1 digest of the seed gives. The same seed always has the same identifier.
pub open spec fn hashed_par_id_text(seed: Seq<char>) -> Seq<char> {
    par_id_text(hashed_values(sha1_digest(vstd::utf8::encode_utf8(seed))))
}

/// A paragraph identifier: the one of the seed, or a random one without a seed.
pub fn hashed_par_id(seed: Option<&str>) -> (out: String)
    ensures
        seed matches Some(s) ==> out@ == hashed_par_id_text(s@),
        seed is None ==> exists|values: Seq<usize>|
            values.len() == 11 && (forall|i: int| 0 <= i < 11 ==> (#[trigger] values[i]) < 62)
                && out@ == #[trigger] par_id_text(values),
{
    match seed {
        None => random_par_id(),
        Some(s) => {
            let digest = sha1_bytes(s.as_bytes());
            let mut values: Vec<usize> = Vec::new();
            let mut i: usize = 0;
            while i < 11
                invariant
                    i <= 11,
                    digest@.len() == 20,
                    values.len() == i,
                    forall|k: int|
                        0 <= k < i ==> (#[trigger] values@[k]) == (digest@[k] % 62) as usize,
                decreases 11 - i,
            {
                values.push((digest[i] % 62) as usize);
                i += 1;
            }
            assert(values@ =~= hashed_values(digest@));
            par_id_of(&values)
        },
    }
}

} // verus!
