//! The published unit: a document of the remote store.

use vstd::prelude::*;
use crate::processors::FileProcessorType;

verus! {

/// A document that a processor produces. It names its processor by kind and
/// holds no reference to it: rendering is asked of the processor with the
/// document's path.
#[derive(Debug)]
pub struct TIMDocument {
    /// The processor that renders the document.
    pub processor: FileProcessorType,
    /// The title of the document.
    pub title: String,
    /// The path of the document, relative to the synchronization root.
    pub path: String,
    /// The remote identifier, once the document exists remotely.
    pub id: Option<u64>,
}

/// A document as contracts see it.
pub struct DocumentView {
    pub processor: FileProcessorType,
    pub title: Seq<char>,
    pub path: Seq<char>,
    pub id: Option<u64>,
}

impl View for TIMDocument {
    type V = DocumentView;

    open spec fn view(&self) -> DocumentView {
        DocumentView { processor: self.processor, title: self.title@, path: self.path@, id: self.id }
    }
}

impl TIMDocument {
    /// A document that has no remote identifier yet.
    pub fn new(processor: FileProcessorType, title: String, path: String) -> (doc: TIMDocument)
        ensures
            doc@ == (DocumentView { processor, title: title@, path: path@, id: None }),
    {
        TIMDocument { processor, title, path, id: None }
    }

    /// A copy of the document.
    pub fn duplicate(&self) -> (doc: TIMDocument)
        ensures
            doc@ == self@,
    {
        TIMDocument {
            processor: self.processor,
            title: self.title.clone(),
            path: self.path.clone(),
            id: self.id,
        }
    }
}

/// The views of a list of documents.
pub open spec fn document_views(docs: Seq<TIMDocument>) -> Seq<DocumentView> {
    docs.map_values(|d: TIMDocument| d@)
}

} // verus!
