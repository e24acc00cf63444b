//! The configuration of a project: its named synchronization targets.

use vstd::prelude::*;
use crate::keyed::{keyed_find, keyed_map, lemma_keyed_push, Keyed};

verus! {

/// The host that a target gets where none is given.
pub const DEFAULT_SYNC_TARGET_HOST: &'static str = "https://tim.jyu.fi";

/// The folder that holds the configuration of a project.
pub const CONFIG_FOLDER: &'static str = ".timsync";

/// The name of the configuration file.
pub const CONFIG_FILE_NAME: &'static str = "config.toml";

/// All that is needed to synchronize to one remote store.
#[derive(Debug)]
pub struct SyncTarget {
    /// The host, with its protocol, such as `https://tim.jyu.fi`.
    pub host: String,
    /// The path of the root folder in the remote store, without a `/` at
    /// either end.
    pub folder_root: String,
    /// The name to log in with.
    pub username: String,
    /// The password to log in with.
    pub password: String,
}

/// The targets of a project by name.
#[derive(Debug)]
pub struct SyncConfig {
    /// The targets as they were set, in their order.
    pub targets: Vec<Keyed<SyncTarget>>,
}

impl View for SyncConfig {
    type V = Map<Seq<char>, SyncTarget>;

    open spec fn view(&self) -> Map<Seq<char>, SyncTarget> {
        keyed_map(self.targets@)
    }
}

impl SyncConfig {
    /// A configuration without targets.
    pub fn new() -> (config: SyncConfig)
        ensures
            config@ == Map::<Seq<char>, SyncTarget>::empty(),
    {
        SyncConfig { targets: Vec::new() }
    }

    /// The target of the given name, if there is one.
    pub fn get_target(&self, name: &str) -> (r: Option<&SyncTarget>)
        ensures
            match r {
                Some(target) => self@.contains_key(name@) && self@[name@] == *target,
                None => !self@.contains_key(name@),
            },
    {
        match keyed_find(&self.targets, name) {
            Some(i) => Some(&self.targets[i].value),
            None => None,
        }
    }

    /// Sets the target of the given name. A target that had the name is replaced.
    pub fn set_target(&mut self, name: &str, target: SyncTarget)
        ensures
            final(self)@ == old(self)@.insert(name@, target),
    {
        let entry = Keyed { key: String::from_str(name), value: target };
        proof {
            lemma_keyed_push(self.targets@, entry);
        }
        self.targets.push(entry);
    }
}

} // verus!
