//! Rendered content that is ready for the remote store, and the decision
//! whether it has to be uploaded.

use vstd::prelude::*;
use crate::fingerprint::{fingerprint, fingerprint_of};
use crate::stamp::{
    extract_stamp, lemma_stamp_round_trip, read_hash, reads_back, settings_hash, stamp_block,
    stamp_hash, stamp_reads_back, stamped, with_stamp, write_stamp,
};
use crate::text::same_text;
use crate::tree::{child_path, join_path};
use crate::upload_files::UploadFiles;

verus! {

/// The settings that a stamp holds.
#[derive(Debug)]
pub struct TimSyncDocSettings {
    /// The fingerprint of the content below the stamp.
    pub hash: String,
}

impl TimSyncDocSettings {
    /// The settings that hold `hash`.
    pub fn new(hash: String) -> (settings: TimSyncDocSettings)
        ensures
            settings.hash == hash,
    {
        TimSyncDocSettings { hash }
    }

    /// Reads the settings from the body of a stamp. There are none where
    /// the body holds no fingerprint.
    pub fn from_yaml(yaml: &str) -> (r: Option<TimSyncDocSettings>)
        ensures
            match r {
                Some(settings) => settings_hash(yaml@) == Some(settings.hash@),
                None => settings_hash(yaml@) is None,
            },
    {
        match read_hash(yaml) {
            Some(hash) => Some(TimSyncDocSettings { hash }),
            None => None,
        }
    }

    /// The stamp that holds the settings.
    pub fn to_markdown(&self) -> (out: String)
        ensures
            out@ == stamp_block(self.hash@),
    {
        write_stamp(self.hash.as_str())
    }
}

/// Whether content whose fingerprint is `hash` differs from what the remote
/// copy `remote` was stamped with. A remote copy without a stamp differs.
pub open spec fn differs_from_remote(hash: Seq<char>, remote: Seq<char>) -> bool {
    stamp_hash(remote) != Some(hash)
}

/// Rendered content with the local files that go with it.
#[derive(Debug)]
pub struct PreparedDocument {
    /// The rendered markup.
    pub markdown: String,
    /// The files to upload beside the document.
    pub upload_files: UploadFiles,
}

impl PreparedDocument {
    /// The fingerprint of the markup.
    pub fn sha1(&self) -> (out: String)
        ensures
            out@ == fingerprint_of(self.markdown@),
            out@.len() == 40,
    {
        fingerprint(self.markdown.as_str())
    }

    /// The document with the stamp of its fingerprint above the markup.
    pub fn with_timestamp(self) -> (out: PreparedDocument)
        ensures
            out.markdown@ == stamped(self.markdown@, fingerprint_of(self.markdown@)),
            out.upload_files == self.upload_files,
    {
        let hash = self.sha1();
        let markdown = with_stamp(self.markdown.as_str(), hash.as_str());
        PreparedDocument { markdown, upload_files: self.upload_files }
    }

    /// Whether the first stamp in `md` holds the fingerprint of this markup.
    pub fn timestamp_equals(&self, md: &str) -> (r: bool)
        ensures
            r == !differs_from_remote(fingerprint_of(self.markdown@), md@),
    {
        let hash = self.sha1();
        match extract_stamp(md) {
            Some(found) => same_text(found.as_str(), hash.as_str()),
            None => false,
        }
    }

    /// Tests whether the stamp of this markup reads back as it was written.
    /// Where it does, a run that finds the stamped markup in the remote
    /// store uploads nothing.
    pub fn stamp_holds(&self) -> (r: bool)
        ensures
            r == reads_back(fingerprint_of(self.markdown@)),
            r ==> !differs_from_remote(
                fingerprint_of(self.markdown@),
                stamped(self.markdown@, fingerprint_of(self.markdown@)),
            ),
    {
        let hash = self.sha1();
        let r = stamp_reads_back(hash.as_str());
        proof {
            if r {
                lemma_second_run_skips(self.markdown@);
            }
        }
        r
    }
}

/// Rendered markup alone.
#[derive(Debug)]
pub struct PreparedDocumentMarkdown(pub String);

impl PreparedDocumentMarkdown {
    /// The fingerprint of the markup.
    pub fn sha1(&self) -> (out: String)
        ensures
            out@ == fingerprint_of(self.0@),
            out@.len() == 40,
    {
        fingerprint(self.0.as_str())
    }

    /// The markup with the stamp of its fingerprint above it.
    pub fn with_timestamp(&self) -> (out: PreparedDocumentMarkdown)
        ensures
            out.0@ == stamped(self.0@, fingerprint_of(self.0@)),
    {
        let hash = self.sha1();
        PreparedDocumentMarkdown(with_stamp(self.0.as_str(), hash.as_str()))
    }

    /// Whether the first stamp in `md` holds the fingerprint of this markup.
    pub fn timestamp_equals(&self, md: &str) -> (r: bool)
        ensures
            r == !differs_from_remote(fingerprint_of(self.0@), md@),
    {
        let hash = self.sha1();
        match extract_stamp(md) {
            Some(found) => same_text(found.as_str(), hash.as_str()),
            None => false,
        }
    }

    /// The markup as a string.
    pub fn into_string(self) -> (out: String)
        ensures
            out == self.0,
    {
        self.0
    }
}

/// What to do with a document's content.
#[derive(Debug)]
pub enum ContentAction {
    /// The remote copy carries the fingerprint of the content: nothing to upload.
    Skip,
    /// Upload `markdown` to the document at `path` with the local files
    /// `files` beside it, and see that the document has the title `title`.
    Upload { path: String, markdown: String, title: String, files: UploadFiles },
}

/// Decides whether rendered content has to be uploaded: not where the remote
/// copy carries the content's fingerprint; else the content goes up under a
/// fresh stamp, to the document's path below the root, together with the
/// local files that the content refers to, and the document's title is to be
/// set.
pub fn content_action(
    folder_root: &str,
    doc_path: &str,
    title: &str,
    rendered: PreparedDocument,
    remote_markdown: &str,
) -> (action: ContentAction)
    ensures
        !differs_from_remote(fingerprint_of(rendered.markdown@), remote_markdown@) ==> action
            is Skip,
        differs_from_remote(fingerprint_of(rendered.markdown@), remote_markdown@) ==> action
            is Upload && action->path@ == child_path(folder_root@, doc_path@) && action->markdown@
            == stamped(rendered.markdown@, fingerprint_of(rendered.markdown@)) && action->title@
            == title@ && action->files@ == rendered.upload_files@,
{
    if rendered.timestamp_equals(remote_markdown) {
        ContentAction::Skip
    } else {
        let path = join_path(folder_root, doc_path);
        let stamped_doc = rendered.with_timestamp();
        ContentAction::Upload {
            path,
            markdown: stamped_doc.markdown,
            title: String::from_str(title),
            files: stamped_doc.upload_files,
        }
    }
}

/// The fingerprint read from content stamped with its own fingerprint is
/// the fingerprint computed afresh from the content, wherever the stamp of
/// that fingerprint reads back as it was written.
pub proof fn lemma_fingerprint_round_trip(markdown: Seq<char>)
    requires
        reads_back(fingerprint_of(markdown)),
    ensures
        stamp_hash(stamped(markdown, fingerprint_of(markdown))) == Some(fingerprint_of(markdown)),
{
    lemma_stamp_round_trip(markdown, fingerprint_of(markdown));
}

/// Content that was uploaded under its stamp and has not changed since
/// does not differ from the remote copy, so a second run uploads nothing
/// for it, wherever the stamp of its fingerprint reads back as it was
/// written.
pub proof fn lemma_second_run_skips(markdown: Seq<char>)
    requires
        reads_back(fingerprint_of(markdown)),
    ensures
        !differs_from_remote(
            fingerprint_of(markdown),
            stamped(markdown, fingerprint_of(markdown)),
        ),
{
    lemma_fingerprint_round_trip(markdown);
}

} // verus!
