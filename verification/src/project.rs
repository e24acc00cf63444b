//! A project: a directory of content with its configuration.

use vstd::prelude::*;
use crate::config::{CONFIG_FILE_NAME, CONFIG_FOLDER, SyncConfig};
use crate::tree::{child_path, join_path};
use crate::path::string_views;
use crate::text::{after_last, chars_string, last_pos, lemma_last_pos, str_chars};

verus! {

/// How many directories are searched for a configuration: the directory
/// itself and the directories above it.
pub const MAX_SEARCH_DEPTH: usize = 10;

/// A project.
#[derive(Debug)]
pub struct Project {
    /// The root directory of the project.
    pub root_path: String,
    /// The configuration of the project.
    pub config: SyncConfig,
}

/// The directory above `dir`: what stands before its last `/`, the root
/// itself for a directory directly below the root.
pub open spec fn parent_dir(dir: Seq<char>) -> Option<Seq<char>> {
    let slash = last_pos(dir, '/');
    if slash < 0 || dir.len() <= 1 {
        None
    } else if slash == 0 {
        Some(seq!['/'])
    } else {
        Some(dir.take(slash))
    }
}

/// The directories in which a project's configuration is sought from `dir`
/// on: `dir` and the directories above it, nearest first, at most `limit`.
pub open spec fn search_path(dir: Seq<char>, limit: nat) -> Seq<Seq<char>>
    decreases limit,
{
    if limit == 0 {
        Seq::empty()
    } else {
        match parent_dir(dir) {
            Some(up) => seq![dir] + search_path(up, (limit - 1) as nat),
            None => seq![dir],
        }
    }
}

/// The path of the configuration file of a project at `dir`.
pub open spec fn config_path(dir: Seq<char>) -> Seq<char> {
    child_path(child_path(dir, CONFIG_FOLDER@), CONFIG_FILE_NAME@)
}

impl Project {
    /// The path of the configuration file of a project at `dir`.
    pub fn config_file(dir: &str) -> (path: String)
        ensures
            path@ == config_path(dir@),
    {
        let folder = join_path(dir, CONFIG_FOLDER);
        join_path(folder.as_str(), CONFIG_FILE_NAME)
    }

    /// A project at `root_path` with the given configuration.
    pub fn new(root_path: String, config: SyncConfig) -> (project: Project)
        ensures
            project.root_path == root_path,
            project.config == config,
    {
        Project { root_path, config }
    }

    /// The root directory of the project.
    pub fn get_root_path(&self) -> (path: &str)
        ensures
            path@ == self.root_path@,
    {
        self.root_path.as_str()
    }

    /// The directory above `dir`, if there is one.
    pub fn parent_of(dir: &str) -> (r: Option<String>)
        ensures
            match r {
                Some(up) => parent_dir(dir@) == Some(up@),
                None => parent_dir(dir@) is None,
            },
    {
        let v = str_chars(dir);
        let after = after_last(&v, '/');
        proof {
            lemma_last_pos(v@, '/');
        }
        if after == 0 || v.len() <= 1 {
            None
        } else if after == 1 {
            let up = chars_string(&v, 0, 1);
            assert(up@ =~= seq!['/']);
            Some(up)
        } else {
            Some(chars_string(&v, 0, after - 1))
        }
    }

    /// The directories in which the configuration of a project is sought
    /// from `dir_path` on: the directory itself, then the directories above
    /// it, `MAX_SEARCH_DEPTH` in all at most. The project is the first of
    /// them that holds a readable configuration.
    pub fn search_directories(dir_path: &str) -> (dirs: Vec<String>)
        ensures
            string_views(dirs@) == search_path(dir_path@, MAX_SEARCH_DEPTH as nat),
    {
        let mut dirs: Vec<String> = Vec::new();
        let mut current = String::from_str(dir_path);
        let mut left: usize = MAX_SEARCH_DEPTH;
        assert(string_views(dirs@) =~= Seq::<Seq<char>>::empty());
        while left > 0
            invariant
                left <= MAX_SEARCH_DEPTH,
                search_path(dir_path@, MAX_SEARCH_DEPTH as nat) == string_views(dirs@) + search_path(
                    current@,
                    left as nat,
                ),
            decreases left,
        {
            let ghost before = string_views(dirs@);
            let next = Project::parent_of(current.as_str());
            let ghost cur = current@;
            dirs.push(current);
            assert(string_views(dirs@) =~= before.push(cur));
            match next {
                Some(up) => {
                    current = up;
                    left -= 1;
                },
                None => {
                    return dirs;
                },
            }
        }
        dirs
    }
}

} // verus!
