//! The local files that a rendered document needs uploaded beside it.

use vstd::prelude::*;

verus! {

/// A local file and the name it gets in the remote store.
#[derive(Debug)]
pub struct UploadFile {
    /// The full local path of the file.
    pub local_path: String,
    /// The name of the file in the remote store.
    pub remote_name: String,
}

/// The files to upload, as a map from local path to remote name. A path that
/// is registered again gets the later name.
#[derive(Debug)]
pub struct UploadFiles {
    /// The registrations in their order.
    pub entries: Vec<UploadFile>,
}

/// The map that a list of registrations stands for.
pub open spec fn upload_map(entries: Seq<UploadFile>) -> Map<Seq<char>, Seq<char>>
    decreases entries.len(),
{
    if entries.len() == 0 {
        Map::empty()
    } else {
        upload_map(entries.drop_last()).insert(
            entries.last().local_path@,
            entries.last().remote_name@,
        )
    }
}

/// The map of two lists of registrations, one after the other.
pub proof fn lemma_upload_map_add(a: Seq<UploadFile>, b: Seq<UploadFile>)
    ensures
        upload_map(a + b) == upload_map(a).union_prefer_right(upload_map(b)),
    decreases b.len(),
{
    if b.len() == 0 {
        assert(a + b == a);
        assert(upload_map(a).union_prefer_right(upload_map(b)) =~= upload_map(a));
    } else {
        assert((a + b).drop_last() == a + b.drop_last());
        lemma_upload_map_add(a, b.drop_last());
        assert(upload_map(a + b) =~= upload_map(a).union_prefer_right(upload_map(b)));
    }
}

impl View for UploadFiles {
    type V = Map<Seq<char>, Seq<char>>;

    open spec fn view(&self) -> Map<Seq<char>, Seq<char>> {
        upload_map(self.entries@)
    }
}

impl UploadFiles {
    /// No file to upload.
    pub fn new() -> (files: UploadFiles)
        ensures
            files@ == Map::<Seq<char>, Seq<char>>::empty(),
    {
        UploadFiles { entries: Vec::new() }
    }

    /// Registers a file under its remote name.
    pub fn insert(&mut self, local_path: String, remote_name: String)
        ensures
            final(self)@ == old(self)@.insert(local_path@, remote_name@),
    {
        let ghost before = self.entries@;
        self.entries.push(UploadFile { local_path, remote_name });
        assert(self.entries@.drop_last() == before);
    }

    /// Registers every file of `other`, each after those already registered.
    pub fn extend(&mut self, other: UploadFiles)
        ensures
            final(self)@ == old(self)@.union_prefer_right(other@),
    {
        let mut other = other;
        proof {
            lemma_upload_map_add(self.entries@, other.entries@);
        }
        self.entries.append(&mut other.entries);
    }

    /// The remote name registered for a local path, if any.
    pub fn get(&self, local_path: &str) -> (r: Option<&String>)
        ensures
            match r {
                Some(name) => self@.contains_key(local_path@) && self@[local_path@] == name@,
                None => !self@.contains_key(local_path@),
            },
    {
        let mut i: usize = self.entries.len();
        assert(self.entries@.take(i as int) == self.entries@);
        while i > 0
            invariant
                i <= self.entries.len(),
                self@.contains_key(local_path@) == upload_map(
                    self.entries@.take(i as int),
                ).contains_key(local_path@),
                self@.contains_key(local_path@) ==> self@[local_path@] == upload_map(
                    self.entries@.take(i as int),
                )[local_path@],
            decreases i,
        {
            assert(self.entries@.take(i as int).drop_last() == self.entries@.take(i - 1));
            if crate::text::same_text(self.entries[i - 1].local_path.as_str(), local_path) {
                return Some(&self.entries[i - 1].remote_name);
            }
            i -= 1;
        }
        None
    }
}

} // verus!
